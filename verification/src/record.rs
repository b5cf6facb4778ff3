//! The in-memory result value the negotiator serializes: a record of named
//! byte-string fields, viewed as a sequence of (name, value) pairs.

use vstd::prelude::*;

verus! {

/// Printable wire bytes: the wire formats forbid ASCII control bytes, which
/// they could not carry on one line.
pub open spec fn safe_bytes(s: Seq<u8>) -> bool {
    forall|i: int| 0 <= i < s.len() ==> s[i] >= 32
}

/// A record is representable on the wire iff every field name and value is
/// made of printable bytes.
pub open spec fn wire_safe(fs: Seq<(Seq<u8>, Seq<u8>)>) -> bool {
    forall|i: int| 0 <= i < fs.len() ==> safe_bytes((#[trigger] fs[i]).0) && safe_bytes(fs[i].1)
}

/// One named field of a record.
pub struct Field {
    /// The field's name.
    pub name: Vec<u8>,
    /// The field's value.
    pub value: Vec<u8>,
}

impl View for Field {
    type V = (Seq<u8>, Seq<u8>);

    open spec fn view(&self) -> Self::V {
        (self.name@, self.value@)
    }
}

/// A structured record: the decoded form of the bytes a lookup found.
pub struct Record {
    /// The fields, in their wire order.
    pub fields: Vec<Field>,
}

impl View for Record {
    type V = Seq<(Seq<u8>, Seq<u8>)>;

    open spec fn view(&self) -> Self::V {
        self.fields@.map_values(|f: Field| (f.name@, f.value@))
    }
}

impl Record {
    /// A record with no fields.
    pub fn new() -> (r: Record)
        ensures
            r@.len() == 0,
    {
        Record { fields: Vec::new() }
    }

    /// Appends one field.
    pub fn push_field(&mut self, name: Vec<u8>, value: Vec<u8>)
        ensures
            final(self)@ == old(self)@.push((name@, value@)),
    {
        self.fields.push(Field { name, value });
        proof {
            assert(self@ =~= old(self)@.push((name@, value@)));
        }
    }

    /// How many fields the record has.
    pub fn field_count(&self) -> (n: usize)
        ensures
            n == self@.len(),
    {
        self.fields.len()
    }

    /// Whether every field of this record is representable on the wire.
    pub fn is_wire_safe(&self) -> (r: bool)
        ensures
            r == wire_safe(self@),
    {
        let mut i: usize = 0;
        while i < self.fields.len()
            invariant
                i <= self.fields@.len(),
                self@.len() == self.fields@.len(),
                forall|k: int| 0 <= k < i ==> safe_bytes((#[trigger] self@[k]).0) && safe_bytes(
                    self@[k].1,
                ),
            decreases self.fields@.len() - i,
        {
            let name_ok = slice_safe(self.fields[i].name.as_slice());
            let value_ok = slice_safe(self.fields[i].value.as_slice());
            proof {
                assert(self@[i as int] == (self.fields@[i as int].name@,
                self.fields@[i as int].value@));
            }
            if !name_ok || !value_ok {
                return false;
            }
            i = i + 1;
        }
        true
    }
}

/// Whether a byte slice is all printable bytes.
pub fn slice_safe(s: &[u8]) -> (r: bool)
    ensures
        r == safe_bytes(s@),
{
    let mut i: usize = 0;
    while i < s.len()
        invariant
            i <= s@.len(),
            forall|k: int| 0 <= k < i ==> s@[k] >= 32,
        decreases s@.len() - i,
    {
        if s[i] < 32 {
            return false;
        }
        i = i + 1;
    }
    true
}

} // verus!
