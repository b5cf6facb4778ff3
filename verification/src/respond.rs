//! The caller layer's settlement of one request: a found record is decoded
//! and negotiated into a 200 reply; an absent key becomes 404 and any
//! contained fault 500, with nothing leaked into the body.

use vstd::prelude::*;

use crate::negotiate::ContentType;
use crate::negotiate::chosen_format;
use crate::negotiate::negotiate;
use crate::negotiate::rendered;
use crate::parse::lemma_parse_json_safe;
use crate::parse::parse_json;
use crate::parse::parse_record;
use crate::protocol::LookupResult;
use crate::record::wire_safe;
use crate::store::clone_bytes;

verus! {

/// One served reply: a status code, the negotiated body if any, and its
/// content type.
pub struct Response {
    /// 200 on found, 404 on not found, 500 on an internal failure.
    pub status: u16,
    /// The negotiated body; empty on 404 and 500.
    pub body: Vec<u8>,
    /// The body's content type; absent on 404 and 500.
    pub content_type: Option<ContentType>,
}

/// Settles one delivered result into the served reply. A found value is
/// decoded as a record and rendered in the format `preference` selects; a
/// value that does not decode, or cannot be rendered, is an internal error.
pub fn respond(preference: &[u8], result: &LookupResult) -> (r: Response)
    ensures
        (match result {
            LookupResult::NotFound => r.status == 404 && r.body@.len() == 0
                && r.content_type is None,
            LookupResult::Failed(_) => r.status == 500 && r.body@.len() == 0
                && r.content_type is None,
            LookupResult::Found(bytes) => (match parse_json(bytes@) {
                Some(fs) => {
                    &&& r.status == 200
                    &&& r.content_type == Some(chosen_format(preference@))
                    &&& r.body@ == rendered(chosen_format(preference@), fs)
                    &&& r.body@.len() > 0
                },
                None => r.status == 500 && r.body@.len() == 0 && r.content_type is None,
            }),
        }),
{
    match result {
        LookupResult::NotFound => Response { status: 404, body: Vec::new(), content_type: None },
        LookupResult::Failed(_) => Response {
            status: 500,
            body: Vec::new(),
            content_type: None,
        },
        LookupResult::Found(bytes) => match parse_record(bytes.as_slice()) {
            None => Response { status: 500, body: Vec::new(), content_type: None },
            Some(rec) => {
                proof {
                    // The parser only accepts representable records, so the
                    // negotiator is owed success here.
                    lemma_parse_json_safe(bytes@);
                    assert(wire_safe(rec@));
                }
                match negotiate(preference, &rec) {
                    Ok(resp) => Response {
                        status: 200,
                        body: resp.body,
                        content_type: Some(resp.content_type),
                    },
                    Err(_) => Response { status: 500, body: Vec::new(), content_type: None },
                }
            },
        },
    }
}

/// Settles one delivered query result. The query collaborator's bytes are
/// already serialized, so a found result passes through unchanged as
/// `application/json`; a contained fault is an internal error.
pub fn respond_query(result: &LookupResult) -> (r: Response)
    ensures
        (match result {
            LookupResult::NotFound => r.status == 404 && r.body@.len() == 0
                && r.content_type is None,
            LookupResult::Failed(_) => r.status == 500 && r.body@.len() == 0
                && r.content_type is None,
            LookupResult::Found(bytes) => r.status == 200 && r.body@ == bytes@
                && r.content_type == Some(ContentType::Json),
        }),
{
    match result {
        LookupResult::NotFound => Response { status: 404, body: Vec::new(), content_type: None },
        LookupResult::Failed(_) => Response {
            status: 500,
            body: Vec::new(),
            content_type: None,
        },
        LookupResult::Found(bytes) => Response {
            status: 200,
            body: clone_bytes(bytes.as_slice()),
            content_type: Some(ContentType::Json),
        },
    }
}

} // verus!
