//! Decoding stored record bytes: a parser for exactly the JSON the
//! negotiator emits, with the round-trip law — parsing a rendered record
//! gives back its fields.

use vstd::prelude::*;

use crate::record::Field;
use crate::record::Record;
use crate::record::safe_bytes;
use crate::record::wire_safe;
use crate::render::BACKSLASH;
use crate::render::COLON;
use crate::render::COMMA;
use crate::render::LBRACE;
use crate::render::QUOTE;
use crate::render::RBRACE;
use crate::render::esc_json;
use crate::render::esc_json_byte;
use crate::render::json_field;
use crate::render::json_fields;
use crate::render::json_of;
use crate::render::json_rest;

verus! {

/// Parses one string body after its opening quote: unescapes up to the
/// closing quote; yields the content and what follows the quote.
pub open spec fn parse_string(s: Seq<u8>) -> Option<(Seq<u8>, Seq<u8>)>
    decreases s.len(),
{
    if s.len() == 0 {
        None
    } else if s[0] == QUOTE {
        Some((Seq::empty(), s.skip(1)))
    } else if s[0] == BACKSLASH {
        if s.len() >= 2 && (s[1] == QUOTE || s[1] == BACKSLASH) {
            match parse_string(s.skip(2)) {
                Some(p) => Some((seq![s[1]] + p.0, p.1)),
                None => None,
            }
        } else {
            None
        }
    } else if s[0] >= 32 {
        match parse_string(s.skip(1)) {
            Some(p) => Some((seq![s[0]] + p.0, p.1)),
            None => None,
        }
    } else {
        None
    }
}

/// Parses one `"name":"value"` member; yields the pair and what follows it.
pub open spec fn parse_field(s: Seq<u8>) -> Option<((Seq<u8>, Seq<u8>), Seq<u8>)> {
    if s.len() >= 1 && s[0] == QUOTE {
        match parse_string(s.skip(1)) {
            Some(p1) => {
                if p1.1.len() >= 2 && p1.1[0] == COLON && p1.1[1] == QUOTE {
                    match parse_string(p1.1.skip(2)) {
                        Some(p2) => Some(((p1.0, p2.0), p2.1)),
                        None => None,
                    }
                } else {
                    None
                }
            },
            None => None,
        }
    } else {
        None
    }
}

/// Parses a non-empty member list up to and over the closing brace; `fuel`
/// bounds the recursion and any count of members at least as large works.
pub open spec fn parse_fields(s: Seq<u8>, fuel: nat) -> Option<(Seq<(Seq<u8>, Seq<u8>)>, Seq<
    u8,
>)>
    decreases fuel,
{
    if fuel == 0 {
        None
    } else {
        match parse_field(s) {
            Some(p) => {
                if p.1.len() >= 1 && p.1[0] == COMMA {
                    match parse_fields(p.1.skip(1), (fuel - 1) as nat) {
                        Some(q) => Some((seq![p.0] + q.0, q.1)),
                        None => None,
                    }
                } else if p.1.len() >= 1 && p.1[0] == RBRACE {
                    Some((seq![p.0], p.1.skip(1)))
                } else {
                    None
                }
            },
            None => None,
        }
    }
}

/// Parses one whole JSON object, exactly the renderer's output shape.
pub open spec fn parse_json(s: Seq<u8>) -> Option<Seq<(Seq<u8>, Seq<u8>)>> {
    if s.len() == 2 && s[0] == LBRACE && s[1] == RBRACE {
        Some(Seq::empty())
    } else if s.len() >= 1 && s[0] == LBRACE {
        match parse_fields(s.skip(1), s.len() as nat) {
            Some(p) => if p.1.len() == 0 {
                Some(p.0)
            } else {
                None
            },
            None => None,
        }
    } else {
        None
    }
}

/// Unescaping undoes escaping: a rendered string body parses back to the
/// string, and the parse stops exactly at its closing quote.
pub proof fn lemma_parse_string_render(x: Seq<u8>, rest: Seq<u8>)
    requires
        safe_bytes(x),
    ensures
        parse_string(esc_json(x) + seq![QUOTE] + rest) == Some((x, rest)),
    decreases x.len(),
{
    let s = esc_json(x) + seq![QUOTE] + rest;
    if x.len() == 0 {
        assert(esc_json(x) =~= Seq::<u8>::empty());
        assert(s[0] == QUOTE);
        assert(s.skip(1) =~= rest);
        assert(x =~= Seq::<u8>::empty());
    } else {
        let b = x[0];
        assert(b >= 32);
        assert(esc_json(x) == esc_json_byte(b) + esc_json(x.skip(1)));
        assert(safe_bytes(x.skip(1))) by {
            assert(forall|i: int| 0 <= i < x.skip(1).len() ==> x.skip(1)[i] == x[i + 1]);
        }
        lemma_parse_string_render(x.skip(1), rest);
        let tail = esc_json(x.skip(1)) + seq![QUOTE] + rest;
        if b == QUOTE || b == BACKSLASH {
            assert(esc_json_byte(b) == seq![BACKSLASH, b]);
            assert(s.len() >= 2);
            assert(s[0] == BACKSLASH);
            assert(s[1] == b);
            assert(s.skip(2) =~= tail);
            assert(parse_string(s) == Some((seq![b] + x.skip(1), rest)));
            assert(seq![b] + x.skip(1) =~= x);
        } else {
            assert(esc_json_byte(b) == seq![b]);
            assert(s[0] == b);
            assert(s.skip(1) =~= tail);
            assert(parse_string(s) == Some((seq![b] + x.skip(1), rest)));
            assert(seq![b] + x.skip(1) =~= x);
        }
    }
}

/// A rendered member parses back to its pair, stopping exactly after it.
pub proof fn lemma_parse_field_render(f: (Seq<u8>, Seq<u8>), rest: Seq<u8>)
    requires
        safe_bytes(f.0),
        safe_bytes(f.1),
    ensures
        parse_field(json_field(f) + rest) == Some((f, rest)),
{
    let s = json_field(f) + rest;
    let mid = seq![COLON, QUOTE] + esc_json(f.1) + seq![QUOTE] + rest;
    assert(s.len() >= 1);
    assert(s[0] == QUOTE);
    assert(s.skip(1) =~= esc_json(f.0) + seq![QUOTE] + mid);
    lemma_parse_string_render(f.0, mid);
    assert(parse_string(s.skip(1)) == Some((f.0, mid)));
    assert(mid.len() >= 2);
    assert(mid[0] == COLON);
    assert(mid[1] == QUOTE);
    assert(mid.skip(2) =~= esc_json(f.1) + seq![QUOTE] + rest);
    lemma_parse_string_render(f.1, rest);
    assert(parse_string(mid.skip(2)) == Some((f.1, rest)));
    assert(parse_field(s) == Some(((f.0, f.1), rest)));
    assert((f.0, f.1) == f);
}

/// After the first member, the member list is a comma and a member list.
proof fn lemma_json_rest_nonempty(g: Seq<(Seq<u8>, Seq<u8>)>)
    requires
        g.len() >= 1,
    ensures
        json_rest(g) == seq![COMMA] + json_fields(g),
{
    assert(json_rest(g) == seq![COMMA] + json_field(g[0]) + json_rest(g.skip(1)));
    assert(json_fields(g) == json_field(g[0]) + json_rest(g.skip(1)));
    assert(seq![COMMA] + json_field(g[0]) + json_rest(g.skip(1)) =~= seq![COMMA] + (json_field(
        g[0],
    ) + json_rest(g.skip(1))));
}

/// The member list is at least as long as the field list it renders.
proof fn lemma_json_rest_len(g: Seq<(Seq<u8>, Seq<u8>)>)
    ensures
        json_rest(g).len() >= g.len(),
    decreases g.len(),
{
    if g.len() > 0 {
        lemma_json_rest_len(g.skip(1));
    }
}

/// A rendered member list followed by the closing brace parses back to its
/// fields, for any fuel at least the field count.
proof fn lemma_parse_fields_render(fs: Seq<(Seq<u8>, Seq<u8>)>, rest: Seq<u8>, fuel: nat)
    requires
        wire_safe(fs),
        fs.len() >= 1,
        fuel >= fs.len(),
    ensures
        parse_fields(json_fields(fs) + seq![RBRACE] + rest, fuel) == Some((fs, rest)),
    decreases fs.len(),
{
    let s = json_fields(fs) + seq![RBRACE] + rest;
    let f = fs[0];
    assert(safe_bytes(f.0) && safe_bytes(f.1));
    if fs.len() == 1 {
        assert(json_fields(fs) == json_field(f) + json_rest(fs.skip(1)));
        assert(fs.skip(1).len() == 0);
        assert(json_rest(fs.skip(1)) == Seq::<u8>::empty());
        let r = seq![RBRACE] + rest;
        assert(s =~= json_field(f) + r);
        lemma_parse_field_render(f, r);
        assert(parse_field(s) == Some((f, r)));
        assert(r[0] == RBRACE);
        assert(r.skip(1) =~= rest);
        assert(parse_fields(s, fuel) == Some((seq![f], rest)));
        assert(seq![f] =~= fs);
    } else {
        assert(json_fields(fs) == json_field(f) + json_rest(fs.skip(1)));
        lemma_json_rest_nonempty(fs.skip(1));
        let inner = json_fields(fs.skip(1)) + seq![RBRACE] + rest;
        let r = seq![COMMA] + inner;
        assert(s =~= json_field(f) + r);
        lemma_parse_field_render(f, r);
        assert(parse_field(s) == Some((f, r)));
        assert(r[0] == COMMA);
        assert(r.skip(1) =~= inner);
        assert(wire_safe(fs.skip(1))) by {
            assert(forall|i: int|
                0 <= i < fs.skip(1).len() ==> fs.skip(1)[i] == fs[i + 1]);
        }
        lemma_parse_fields_render(fs.skip(1), rest, (fuel - 1) as nat);
        assert(parse_fields(r.skip(1), (fuel - 1) as nat) == Some((fs.skip(1), rest)));
        assert(parse_fields(s, fuel) == Some((seq![f] + fs.skip(1), rest)));
        assert(seq![f] + fs.skip(1) =~= fs);
    }
}

/// Law: the negotiator's JSON round-trips — parsing the rendered object
/// reproduces the record's fields exactly, for every representable record.
pub proof fn lemma_json_round_trip(fs: Seq<(Seq<u8>, Seq<u8>)>)
    requires
        wire_safe(fs),
    ensures
        parse_json(json_of(fs)) == Some(fs),
{
    let s = json_of(fs);
    if fs.len() == 0 {
        assert(json_fields(fs) == Seq::<u8>::empty());
        assert(s =~= seq![LBRACE, RBRACE]);
        assert(s.len() == 2 && s[0] == LBRACE && s[1] == RBRACE);
        assert(parse_json(s) == Some(Seq::<(Seq<u8>, Seq<u8>)>::empty()));
        assert(Seq::<(Seq<u8>, Seq<u8>)>::empty() =~= fs);
    } else {
        let f = fs[0];
        assert(json_fields(fs) == json_field(f) + json_rest(fs.skip(1)));
        assert(json_field(f).len() >= 5);
        lemma_json_rest_len(fs.skip(1));
        assert(json_fields(fs).len() >= fs.len() + 4);
        assert(s.len() >= fs.len() + 6);
        assert(s[0] == LBRACE);
        assert(s[1] == json_fields(fs)[0]);
        assert(json_fields(fs)[0] == json_field(f)[0]);
        assert(json_field(f)[0] == QUOTE);
        assert(!(s.len() == 2 && s[0] == LBRACE && s[1] == RBRACE));
        assert(s.skip(1) =~= json_fields(fs) + seq![RBRACE] + Seq::<u8>::empty());
        lemma_parse_fields_render(fs, Seq::empty(), s.len() as nat);
        assert(parse_fields(s.skip(1), s.len() as nat) == Some((fs, Seq::<u8>::empty())));
        assert(parse_json(s) == Some(fs));
    }
}

/// Every string the parser accepts is printable: the wire cannot carry an
/// unprintable byte into a decoded record.
proof fn lemma_parse_string_safe(s: Seq<u8>)
    ensures
        parse_string(s) matches Some(p) ==> safe_bytes(p.0),
    decreases s.len(),
{
    if s.len() == 0 {
    } else if s[0] == QUOTE {
        assert(safe_bytes(Seq::<u8>::empty()));
    } else if s[0] == BACKSLASH {
        if s.len() >= 2 && (s[1] == QUOTE || s[1] == BACKSLASH) {
            lemma_parse_string_safe(s.skip(2));
            if parse_string(s.skip(2)) is Some {
                let p = parse_string(s.skip(2))->0;
                assert forall|i: int|
                    0 <= i < (seq![s[1]] + p.0).len() implies (seq![s[1]] + p.0)[i] >= 32 by {
                    if i > 0 {
                        assert((seq![s[1]] + p.0)[i] == p.0[i - 1]);
                    }
                }
            }
        }
    } else if s[0] >= 32 {
        lemma_parse_string_safe(s.skip(1));
        if parse_string(s.skip(1)) is Some {
            let p = parse_string(s.skip(1))->0;
            assert forall|i: int|
                0 <= i < (seq![s[0]] + p.0).len() implies (seq![s[0]] + p.0)[i] >= 32 by {
                if i > 0 {
                    assert((seq![s[0]] + p.0)[i] == p.0[i - 1]);
                }
            }
        }
    }
}

/// Every member list the parser accepts is representable.
proof fn lemma_parse_fields_safe(s: Seq<u8>, fuel: nat)
    ensures
        parse_fields(s, fuel) matches Some(p) ==> wire_safe(p.0),
    decreases fuel,
{
    if fuel == 0 {
        return ;
    }
    if parse_field(s) is Some {
        let p = parse_field(s)->0;
        assert(safe_bytes(p.0.0) && safe_bytes(p.0.1)) by {
            lemma_parse_string_safe(s.skip(1));
            let p1 = parse_string(s.skip(1))->0;
            lemma_parse_string_safe(p1.1.skip(2));
        }
        if p.1.len() >= 1 && p.1[0] == COMMA {
            lemma_parse_fields_safe(p.1.skip(1), (fuel - 1) as nat);
            if parse_fields(p.1.skip(1), (fuel - 1) as nat) is Some {
                let q = parse_fields(p.1.skip(1), (fuel - 1) as nat)->0;
                assert forall|i: int|
                    0 <= i < (seq![p.0] + q.0).len() implies safe_bytes(
                    ((#[trigger] (seq![p.0] + q.0)[i])).0,
                ) && safe_bytes((seq![p.0] + q.0)[i].1) by {
                    if i > 0 {
                        assert((seq![p.0] + q.0)[i] == q.0[i - 1]);
                    }
                }
            }
        } else if p.1.len() >= 1 && p.1[0] == RBRACE {
            assert(wire_safe(seq![p.0])) by {
                assert(seq![p.0][0] == p.0);
            }
        }
    }
}

/// Law: anything the parser accepts is representable, so a decoded record
/// can always be rendered again — decode then render never faults.
pub proof fn lemma_parse_json_safe(s: Seq<u8>)
    ensures
        parse_json(s) matches Some(fs) ==> wire_safe(fs),
{
    if s.len() == 2 && s[0] == LBRACE && s[1] == RBRACE {
        assert(wire_safe(Seq::<(Seq<u8>, Seq<u8>)>::empty()));
    } else if s.len() >= 1 && s[0] == LBRACE {
        lemma_parse_fields_safe(s.skip(1), s.len() as nat);
    }
}

/// Executable parse of one string body, starting after the opening quote at
/// index `i`; returns the content and the index after the closing quote.
fn parse_string_exec(s: &[u8], i: usize) -> (r: Option<(Vec<u8>, usize)>)
    requires
        i <= s@.len(),
    ensures
        (match parse_string(s@.skip(i as int)) {
            Some(p) => r matches Some(q) && q.0@ == p.0 && q.1 <= s@.len() && s@.skip(
                q.1 as int,
            ) == p.1,
            None => r is None,
        }),
    decreases s@.len() - i,
{
    let n = s.len();
    if i >= n {
        proof {
            assert(s@.skip(i as int) =~= Seq::<u8>::empty());
        }
        return None;
    }
    let ghost tail = s@.skip(i as int);
    proof {
        assert(tail[0] == s@[i as int]);
    }
    let b = s[i];
    if b == QUOTE {
        proof {
            assert(tail.skip(1) =~= s@.skip(i + 1));
        }
        return Some((Vec::new(), i + 1));
    }
    if b == BACKSLASH {
        if n - i >= 2 {
            let c = s[i + 1];
            proof {
                assert(tail.len() >= 2);
                assert(tail[1] == s@[i + 1]);
            }
            if c == QUOTE || c == BACKSLASH {
                proof {
                    assert(tail.skip(2) =~= s@.skip(i + 2));
                }
                match parse_string_exec(s, i + 2) {
                    Some((t, j)) => {
                        let mut t = t;
                        let mut v: Vec<u8> = Vec::new();
                        v.push(c);
                        let ghost t_view = t@;
                        v.append(&mut t);
                        proof {
                            assert(v@ =~= seq![c] + t_view);
                        }
                        return Some((v, j));
                    },
                    None => {
                        return None;
                    },
                }
            }
            return None;
        }
        proof {
            assert(tail.len() < 2);
        }
        return None;
    }
    if b >= 32 {
        proof {
            assert(tail.skip(1) =~= s@.skip(i + 1));
        }
        match parse_string_exec(s, i + 1) {
            Some((t, j)) => {
                let mut t = t;
                let mut v: Vec<u8> = Vec::new();
                v.push(b);
                let ghost t_view = t@;
                v.append(&mut t);
                proof {
                    assert(v@ =~= seq![b] + t_view);
                }
                Some((v, j))
            },
            None => None,
        }
    } else {
        None
    }
}

/// Executable parse of one member starting at index `i`.
fn parse_field_exec(s: &[u8], i: usize) -> (r: Option<(Field, usize)>)
    requires
        i <= s@.len(),
    ensures
        (match parse_field(s@.skip(i as int)) {
            Some(p) => r matches Some(q) && (q.0.name@, q.0.value@) == p.0 && q.1 <= s@.len()
                && s@.skip(q.1 as int) == p.1,
            None => r is None,
        }),
{
    let n = s.len();
    let ghost tail = s@.skip(i as int);
    if i >= n {
        proof {
            assert(tail =~= Seq::<u8>::empty());
        }
        return None;
    }
    proof {
        assert(tail[0] == s@[i as int]);
    }
    if s[i] != QUOTE {
        return None;
    }
    proof {
        assert(tail.skip(1) =~= s@.skip(i + 1));
    }
    match parse_string_exec(s, i + 1) {
        None => None,
        Some((name, j)) => {
            let ghost r1 = s@.skip(j as int);
            if n - j >= 2 {
                proof {
                    assert(r1.len() >= 2);
                    assert(r1[0] == s@[j as int]);
                    assert(r1[1] == s@[j + 1]);
                }
                if s[j] == COLON && s[j + 1] == QUOTE {
                    proof {
                        assert(r1.skip(2) =~= s@.skip(j + 2));
                    }
                    match parse_string_exec(s, j + 2) {
                        None => None,
                        Some((value, k)) => Some((Field { name, value }, k)),
                    }
                } else {
                    None
                }
            } else {
                proof {
                    assert(r1.len() < 2);
                }
                None
            }
        },
    }
}

/// Executable parse of the member list starting at index `i`.
fn parse_fields_exec(s: &[u8], i: usize, fuel: usize) -> (r: Option<(Vec<Field>, usize)>)
    requires
        i <= s@.len(),
    ensures
        (match parse_fields(s@.skip(i as int), fuel as nat) {
            Some(p) => r matches Some(q) && q.0@.map_values(|fl: Field| (fl.name@, fl.value@))
                == p.0 && q.1 <= s@.len() && s@.skip(q.1 as int) == p.1,
            None => r is None,
        }),
    decreases fuel,
{
    if fuel == 0 {
        return None;
    }
    let n = s.len();
    match parse_field_exec(s, i) {
        None => None,
        Some((field, j)) => {
            let ghost r1 = s@.skip(j as int);
            let ghost fpair = (field.name@, field.value@);
            if n - j >= 1 {
                proof {
                    assert(r1.len() >= 1);
                    assert(r1[0] == s@[j as int]);
                }
                if s[j] == COMMA {
                    proof {
                        assert(r1.skip(1) =~= s@.skip(j + 1));
                    }
                    match parse_fields_exec(s, j + 1, fuel - 1) {
                        None => None,
                        Some((rest_fields, k)) => {
                            let mut rest_fields = rest_fields;
                            let ghost rest_view = rest_fields@.map_values(
                                |fl: Field| (fl.name@, fl.value@),
                            );
                            rest_fields.insert(0, field);
                            proof {
                                assert(rest_fields@.map_values(|fl: Field| (fl.name@, fl.value@))
                                    =~= seq![fpair] + rest_view);
                            }
                            Some((rest_fields, k))
                        },
                    }
                } else if s[j] == RBRACE {
                    proof {
                        assert(r1.skip(1) =~= s@.skip(j + 1));
                    }
                    let mut v: Vec<Field> = Vec::new();
                    v.push(field);
                    proof {
                        assert(v@.map_values(|fl: Field| (fl.name@, fl.value@)) =~= seq![fpair]);
                    }
                    Some((v, j + 1))
                } else {
                    None
                }
            } else {
                proof {
                    assert(r1.len() == 0);
                }
                None
            }
        },
    }
}

/// Parses stored bytes as one JSON object record: exactly the objects the
/// negotiator's JSON rendering emits, and nothing else.
pub fn parse_record(bytes: &[u8]) -> (r: Option<Record>)
    ensures
        (match parse_json(bytes@) {
            Some(fs) => r matches Some(rec) && rec@ == fs,
            None => r is None,
        }),
{
    let n = bytes.len();
    if n == 2 && bytes[0] == LBRACE && bytes[1] == RBRACE {
        let rec = Record { fields: Vec::new() };
        proof {
            assert(rec@ =~= Seq::<(Seq<u8>, Seq<u8>)>::empty());
        }
        return Some(rec);
    }
    if n >= 1 && bytes[0] == LBRACE {
        proof {
            assert(bytes@.skip(1) == bytes@.skip(1));
        }
        match parse_fields_exec(bytes, 1, n) {
            None => None,
            Some((fields, k)) => {
                if k == n {
                    proof {
                        assert(bytes@.skip(k as int).len() == 0);
                    }
                    let rec = Record { fields };
                    Some(rec)
                } else {
                    proof {
                        assert(bytes@.skip(k as int).len() > 0);
                    }
                    None
                }
            },
        }
    } else {
        None
    }
}

} // verus!
