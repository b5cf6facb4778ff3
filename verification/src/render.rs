//! The negotiator's wire formats, byte for byte: JSON, a YAML mapping, and
//! the fixed HTML template, each defined as a spec function and produced by
//! a renderer proved to emit exactly those bytes.

use vstd::prelude::*;

use crate::record::Record;

verus! {

/// ASCII double quote.
pub const QUOTE: u8 = 34;

/// ASCII backslash.
pub const BACKSLASH: u8 = 92;

/// ASCII colon.
pub const COLON: u8 = 58;

/// ASCII comma.
pub const COMMA: u8 = 44;

/// ASCII space.
pub const SPACE: u8 = 32;

/// ASCII line feed.
pub const NEWLINE: u8 = 10;

/// ASCII left brace.
pub const LBRACE: u8 = 123;

/// ASCII right brace.
pub const RBRACE: u8 = 125;

/// ASCII ampersand.
pub const AMP: u8 = 38;

/// ASCII less-than sign.
pub const LT: u8 = 60;

/// ASCII greater-than sign.
pub const GT: u8 = 62;

// --- JSON ---

/// JSON escaping of one byte: quote and backslash get a backslash prefix.
pub open spec fn esc_json_byte(b: u8) -> Seq<u8> {
    if b == QUOTE {
        seq![BACKSLASH, QUOTE]
    } else if b == BACKSLASH {
        seq![BACKSLASH, BACKSLASH]
    } else {
        seq![b]
    }
}

/// JSON escaping of a byte string.
pub open spec fn esc_json(s: Seq<u8>) -> Seq<u8>
    decreases s.len(),
{
    if s.len() == 0 {
        Seq::empty()
    } else {
        esc_json_byte(s[0]) + esc_json(s.skip(1))
    }
}

/// Escaping distributes over appending one byte.
pub proof fn lemma_esc_json_push(s: Seq<u8>, b: u8)
    ensures
        esc_json(s.push(b)) == esc_json(s) + esc_json_byte(b),
    decreases s.len(),
{
    if s.len() == 0 {
        assert(s.push(b).skip(1) =~= s);
        assert(s.push(b)[0] == b);
        assert(esc_json(s.push(b)) == esc_json_byte(b) + esc_json(s));
        assert(esc_json(s) + esc_json_byte(b) =~= esc_json_byte(b) + esc_json(s));
    } else {
        assert(s.push(b).skip(1) =~= s.skip(1).push(b));
        lemma_esc_json_push(s.skip(1), b);
        assert(s.push(b)[0] == s[0]);
        assert(esc_json(s.push(b)) == esc_json_byte(s[0]) + esc_json(s.skip(1).push(b)));
        assert(esc_json(s) == esc_json_byte(s[0]) + esc_json(s.skip(1)));
        assert(esc_json_byte(s[0]) + (esc_json(s.skip(1)) + esc_json_byte(b)) =~= (esc_json_byte(
            s[0],
        ) + esc_json(s.skip(1))) + esc_json_byte(b));
    }
}

/// One JSON member: `"name":"value"`, both parts escaped.
pub open spec fn json_field(f: (Seq<u8>, Seq<u8>)) -> Seq<u8> {
    seq![QUOTE] + esc_json(f.0) + seq![QUOTE, COLON, QUOTE] + esc_json(f.1) + seq![QUOTE]
}

/// The members after the first, each preceded by a comma.
pub open spec fn json_rest(fs: Seq<(Seq<u8>, Seq<u8>)>) -> Seq<u8>
    decreases fs.len(),
{
    if fs.len() == 0 {
        Seq::empty()
    } else {
        seq![COMMA] + json_field(fs[0]) + json_rest(fs.skip(1))
    }
}

/// The comma-separated member list.
pub open spec fn json_fields(fs: Seq<(Seq<u8>, Seq<u8>)>) -> Seq<u8> {
    if fs.len() == 0 {
        Seq::empty()
    } else {
        json_field(fs[0]) + json_rest(fs.skip(1))
    }
}

/// The JSON serialization of a record: one object in member order.
pub open spec fn json_of(fs: Seq<(Seq<u8>, Seq<u8>)>) -> Seq<u8> {
    seq![LBRACE] + json_fields(fs) + seq![RBRACE]
}

proof fn lemma_json_rest_push(fs: Seq<(Seq<u8>, Seq<u8>)>, f: (Seq<u8>, Seq<u8>))
    ensures
        json_rest(fs.push(f)) == json_rest(fs) + seq![COMMA] + json_field(f),
    decreases fs.len(),
{
    if fs.len() == 0 {
        assert(fs.push(f).skip(1) =~= fs);
        assert(fs.push(f)[0] == f);
        assert(json_rest(fs.push(f)) == seq![COMMA] + json_field(f) + json_rest(fs));
        assert(seq![COMMA] + json_field(f) + json_rest(fs) =~= json_rest(fs) + seq![COMMA]
            + json_field(f));
    } else {
        assert(fs.push(f).skip(1) =~= fs.skip(1).push(f));
        lemma_json_rest_push(fs.skip(1), f);
        assert(fs.push(f)[0] == fs[0]);
        assert(json_rest(fs.push(f)) == seq![COMMA] + json_field(fs[0]) + json_rest(
            fs.skip(1).push(f),
        ));
        assert(json_rest(fs.skip(1).push(f)) == json_rest(fs.skip(1)) + seq![COMMA] + json_field(
            f,
        ));
        assert(json_rest(fs) == seq![COMMA] + json_field(fs[0]) + json_rest(fs.skip(1)));
        assert(seq![COMMA] + json_field(fs[0]) + ((json_rest(fs.skip(1)) + seq![COMMA])
            + json_field(f)) =~= (seq![COMMA] + json_field(fs[0]) + json_rest(fs.skip(1)))
            + seq![COMMA] + json_field(f));
    }
}

/// The member list grows on the right by a comma (after the first member)
/// and the new member.
pub proof fn lemma_json_fields_push(fs: Seq<(Seq<u8>, Seq<u8>)>, f: (Seq<u8>, Seq<u8>))
    ensures
        fs.len() == 0 ==> json_fields(fs.push(f)) == json_field(f),
        fs.len() > 0 ==> json_fields(fs.push(f)) == json_fields(fs) + seq![COMMA] + json_field(
            f,
        ),
{
    if fs.len() == 0 {
        assert(fs.push(f).skip(1) =~= fs);
        assert(fs.push(f)[0] == f);
        assert(json_fields(fs.push(f)) == json_field(f) + json_rest(fs));
        assert(json_field(f) + json_rest(fs) =~= json_field(f));
    } else {
        assert(fs.push(f).skip(1) =~= fs.skip(1).push(f));
        lemma_json_rest_push(fs.skip(1), f);
        assert(fs.push(f)[0] == fs[0]);
        assert(json_fields(fs.push(f)) == json_field(fs[0]) + json_rest(fs.skip(1).push(f)));
        assert(json_rest(fs.skip(1).push(f)) == json_rest(fs.skip(1)) + seq![COMMA]
            + json_field(f));
        assert(json_fields(fs) == json_field(fs[0]) + json_rest(fs.skip(1)));
        assert(json_field(fs[0]) + ((json_rest(fs.skip(1)) + seq![COMMA]) + json_field(f))
            =~= ((json_field(fs[0]) + json_rest(fs.skip(1))) + seq![COMMA]) + json_field(f));
    }
}

/// Appends the JSON escaping of `s` to `out`.
fn esc_json_into(out: &mut Vec<u8>, s: &[u8])
    ensures
        final(out)@ == old(out)@ + esc_json(s@),
{
    let mut j: usize = 0;
    while j < s.len()
        invariant
            j <= s@.len(),
            out@ == old(out)@ + esc_json(s@.take(j as int)),
        decreases s@.len() - j,
    {
        let b = s[j];
        if b == QUOTE || b == BACKSLASH {
            out.push(BACKSLASH);
            out.push(b);
        } else {
            out.push(b);
        }
        proof {
            assert(s@.take(j as int).push(b) =~= s@.take(j + 1));
            lemma_esc_json_push(s@.take(j as int), b);
            assert(out@ =~= old(out)@ + esc_json(s@.take(j + 1)));
        }
        j = j + 1;
    }
    proof {
        assert(s@.take(s@.len() as int) =~= s@);
    }
}

/// Renders a record as JSON, exactly `json_of` of its fields.
pub fn render_json(rec: &Record) -> (out: Vec<u8>)
    ensures
        out@ == json_of(rec@),
{
    let mut out: Vec<u8> = Vec::new();
    out.push(LBRACE);
    let mut i: usize = 0;
    while i < rec.fields.len()
        invariant
            i <= rec.fields@.len(),
            rec@.len() == rec.fields@.len(),
            out@ == seq![LBRACE] + json_fields(rec@.take(i as int)),
        decreases rec.fields@.len() - i,
    {
        if i > 0 {
            out.push(COMMA);
        }
        out.push(QUOTE);
        esc_json_into(&mut out, rec.fields[i].name.as_slice());
        out.push(QUOTE);
        out.push(COLON);
        out.push(QUOTE);
        esc_json_into(&mut out, rec.fields[i].value.as_slice());
        out.push(QUOTE);
        proof {
            assert(rec@[i as int] == (rec.fields@[i as int].name@, rec.fields@[i as int].value@));
            assert(rec@.take(i as int).push(rec@[i as int]) =~= rec@.take(i + 1));
            lemma_json_fields_push(rec@.take(i as int), rec@[i as int]);
            assert(out@ =~= seq![LBRACE] + json_fields(rec@.take(i + 1)));
        }
        i = i + 1;
    }
    out.push(RBRACE);
    proof {
        assert(rec@.take(rec@.len() as int) =~= rec@);
        assert(out@ =~= json_of(rec@));
    }
    out
}

// --- YAML ---

/// One YAML mapping line: `name: value` and a newline.
pub open spec fn yaml_line(f: (Seq<u8>, Seq<u8>)) -> Seq<u8> {
    f.0 + seq![COLON, SPACE] + f.1 + seq![NEWLINE]
}

/// The lines of a YAML mapping, in field order.
pub open spec fn yaml_lines(fs: Seq<(Seq<u8>, Seq<u8>)>) -> Seq<u8>
    decreases fs.len(),
{
    if fs.len() == 0 {
        Seq::empty()
    } else {
        yaml_line(fs[0]) + yaml_lines(fs.skip(1))
    }
}

/// The YAML serialization of a record: its mapping lines, or the empty flow
/// mapping `{}` for a record with no fields.
pub open spec fn yaml_of(fs: Seq<(Seq<u8>, Seq<u8>)>) -> Seq<u8> {
    if fs.len() == 0 {
        seq![LBRACE, RBRACE, NEWLINE]
    } else {
        yaml_lines(fs)
    }
}

/// The line list grows on the right by the new field's line.
pub proof fn lemma_yaml_lines_push(fs: Seq<(Seq<u8>, Seq<u8>)>, f: (Seq<u8>, Seq<u8>))
    ensures
        yaml_lines(fs.push(f)) == yaml_lines(fs) + yaml_line(f),
    decreases fs.len(),
{
    if fs.len() == 0 {
        assert(fs.push(f).skip(1) =~= fs);
        assert(fs.push(f)[0] == f);
        assert(yaml_lines(fs.push(f)) == yaml_line(f) + yaml_lines(fs));
        assert(yaml_line(f) + yaml_lines(fs) =~= yaml_lines(fs) + yaml_line(f));
    } else {
        assert(fs.push(f).skip(1) =~= fs.skip(1).push(f));
        lemma_yaml_lines_push(fs.skip(1), f);
        assert(fs.push(f)[0] == fs[0]);
        assert(yaml_lines(fs.push(f)) == yaml_line(fs[0]) + yaml_lines(fs.skip(1).push(f)));
        assert(yaml_lines(fs) == yaml_line(fs[0]) + yaml_lines(fs.skip(1)));
        assert(yaml_line(fs[0]) + (yaml_lines(fs.skip(1)) + yaml_line(f)) =~= (yaml_line(fs[0])
            + yaml_lines(fs.skip(1))) + yaml_line(f));
    }
}

/// Appends a whole slice to `out`.
fn push_all(out: &mut Vec<u8>, s: &[u8])
    ensures
        final(out)@ == old(out)@ + s@,
{
    let mut j: usize = 0;
    while j < s.len()
        invariant
            j <= s@.len(),
            out@ == old(out)@ + s@.take(j as int),
        decreases s@.len() - j,
    {
        out.push(s[j]);
        proof {
            assert(s@.take(j as int).push(s@[j as int]) =~= s@.take(j + 1));
            assert(out@ =~= old(out)@ + s@.take(j + 1));
        }
        j = j + 1;
    }
    proof {
        assert(s@.take(s@.len() as int) =~= s@);
    }
}

/// Renders a record as a YAML mapping, exactly `yaml_of` of its fields.
pub fn render_yaml(rec: &Record) -> (out: Vec<u8>)
    ensures
        out@ == yaml_of(rec@),
{
    let mut out: Vec<u8> = Vec::new();
    if rec.fields.len() == 0 {
        out.push(LBRACE);
        out.push(RBRACE);
        out.push(NEWLINE);
        proof {
            assert(out@ =~= yaml_of(rec@));
        }
        return out;
    }
    let mut i: usize = 0;
    while i < rec.fields.len()
        invariant
            i <= rec.fields@.len(),
            rec@.len() == rec.fields@.len(),
            out@ == yaml_lines(rec@.take(i as int)),
        decreases rec.fields@.len() - i,
    {
        push_all(&mut out, rec.fields[i].name.as_slice());
        out.push(COLON);
        out.push(SPACE);
        push_all(&mut out, rec.fields[i].value.as_slice());
        out.push(NEWLINE);
        proof {
            assert(rec@[i as int] == (rec.fields@[i as int].name@, rec.fields@[i as int].value@));
            assert(rec@.take(i as int).push(rec@[i as int]) =~= rec@.take(i + 1));
            lemma_yaml_lines_push(rec@.take(i as int), rec@[i as int]);
            assert(out@ =~= yaml_lines(rec@.take(i + 1)));
        }
        i = i + 1;
    }
    proof {
        assert(rec@.take(rec@.len() as int) =~= rec@);
    }
    out
}

// --- HTML ---

/// HTML escaping of one byte: ampersand and angle brackets become entities.
pub open spec fn esc_html_byte(b: u8) -> Seq<u8> {
    if b == AMP {
        seq![AMP, 97u8, 109u8, 112u8, 59u8]
    } else if b == LT {
        seq![AMP, 108u8, 116u8, 59u8]
    } else if b == GT {
        seq![AMP, 103u8, 116u8, 59u8]
    } else {
        seq![b]
    }
}

/// HTML escaping of a byte string.
pub open spec fn esc_html(s: Seq<u8>) -> Seq<u8>
    decreases s.len(),
{
    if s.len() == 0 {
        Seq::empty()
    } else {
        esc_html_byte(s[0]) + esc_html(s.skip(1))
    }
}

/// Escaping distributes over appending one byte.
pub proof fn lemma_esc_html_push(s: Seq<u8>, b: u8)
    ensures
        esc_html(s.push(b)) == esc_html(s) + esc_html_byte(b),
    decreases s.len(),
{
    if s.len() == 0 {
        assert(s.push(b).skip(1) =~= s);
        assert(s.push(b)[0] == b);
        assert(esc_html(s.push(b)) == esc_html_byte(b) + esc_html(s));
        assert(esc_html(s) + esc_html_byte(b) =~= esc_html_byte(b) + esc_html(s));
    } else {
        assert(s.push(b).skip(1) =~= s.skip(1).push(b));
        lemma_esc_html_push(s.skip(1), b);
        assert(s.push(b)[0] == s[0]);
        assert(esc_html(s.push(b)) == esc_html_byte(s[0]) + esc_html(s.skip(1).push(b)));
        assert(esc_html(s) == esc_html_byte(s[0]) + esc_html(s.skip(1)));
        assert(esc_html_byte(s[0]) + (esc_html(s.skip(1)) + esc_html_byte(b)) =~= (esc_html_byte(
            s[0],
        ) + esc_html(s.skip(1))) + esc_html_byte(b));
    }
}

/// The template's opening bytes: `<html><body>`.
pub open spec fn html_header() -> Seq<u8> {
    seq![LT, 104u8, 116u8, 109u8, 108u8, GT, LT, 98u8, 111u8, 100u8, 121u8, GT]
}

/// The template's closing bytes: `</body></html>`.
pub open spec fn html_footer() -> Seq<u8> {
    seq![LT, 47u8, 98u8, 111u8, 100u8, 121u8, GT, LT, 47u8, 104u8, 116u8, 109u8, 108u8, GT]
}

/// One rendered row: `<p>name: value</p>`, both parts escaped.
pub open spec fn html_row(f: (Seq<u8>, Seq<u8>)) -> Seq<u8> {
    seq![LT, 112u8, GT] + esc_html(f.0) + seq![COLON, SPACE] + esc_html(f.1) + seq![LT, 47u8,
        112u8, GT]
}

/// The rendered rows, in field order.
pub open spec fn html_rows(fs: Seq<(Seq<u8>, Seq<u8>)>) -> Seq<u8>
    decreases fs.len(),
{
    if fs.len() == 0 {
        Seq::empty()
    } else {
        html_row(fs[0]) + html_rows(fs.skip(1))
    }
}

/// The HTML rendering of a record through the fixed record template: header,
/// one row per field, footer.
pub open spec fn html_of(fs: Seq<(Seq<u8>, Seq<u8>)>) -> Seq<u8> {
    html_header() + html_rows(fs) + html_footer()
}

/// The row list grows on the right by the new field's row.
pub proof fn lemma_html_rows_push(fs: Seq<(Seq<u8>, Seq<u8>)>, f: (Seq<u8>, Seq<u8>))
    ensures
        html_rows(fs.push(f)) == html_rows(fs) + html_row(f),
    decreases fs.len(),
{
    if fs.len() == 0 {
        assert(fs.push(f).skip(1) =~= fs);
        assert(fs.push(f)[0] == f);
        assert(html_rows(fs.push(f)) == html_row(f) + html_rows(fs));
        assert(html_row(f) + html_rows(fs) =~= html_rows(fs) + html_row(f));
    } else {
        assert(fs.push(f).skip(1) =~= fs.skip(1).push(f));
        lemma_html_rows_push(fs.skip(1), f);
        assert(fs.push(f)[0] == fs[0]);
        assert(html_rows(fs.push(f)) == html_row(fs[0]) + html_rows(fs.skip(1).push(f)));
        assert(html_rows(fs) == html_row(fs[0]) + html_rows(fs.skip(1)));
        assert(html_row(fs[0]) + (html_rows(fs.skip(1)) + html_row(f)) =~= (html_row(fs[0])
            + html_rows(fs.skip(1))) + html_row(f));
    }
}

/// Appends the HTML escaping of `s` to `out`.
fn esc_html_into(out: &mut Vec<u8>, s: &[u8])
    ensures
        final(out)@ == old(out)@ + esc_html(s@),
{
    let mut j: usize = 0;
    while j < s.len()
        invariant
            j <= s@.len(),
            out@ == old(out)@ + esc_html(s@.take(j as int)),
        decreases s@.len() - j,
    {
        let b = s[j];
        if b == AMP {
            out.push(AMP);
            out.push(97);
            out.push(109);
            out.push(112);
            out.push(59);
        } else if b == LT {
            out.push(AMP);
            out.push(108);
            out.push(116);
            out.push(59);
        } else if b == GT {
            out.push(AMP);
            out.push(103);
            out.push(116);
            out.push(59);
        } else {
            out.push(b);
        }
        proof {
            assert(s@.take(j as int).push(b) =~= s@.take(j + 1));
            lemma_esc_html_push(s@.take(j as int), b);
            assert(out@ =~= old(out)@ + esc_html(s@.take(j + 1)));
        }
        j = j + 1;
    }
    proof {
        assert(s@.take(s@.len() as int) =~= s@);
    }
}

/// Renders a record through the fixed HTML template, exactly `html_of` of
/// its fields.
pub fn render_html(rec: &Record) -> (out: Vec<u8>)
    ensures
        out@ == html_of(rec@),
{
    let mut out: Vec<u8> = Vec::new();
    out.push(LT);
    out.push(104);
    out.push(116);
    out.push(109);
    out.push(108);
    out.push(GT);
    out.push(LT);
    out.push(98);
    out.push(111);
    out.push(100);
    out.push(121);
    out.push(GT);
    proof {
        assert(out@ =~= html_header() + html_rows(rec@.take(0)));
    }
    let mut i: usize = 0;
    while i < rec.fields.len()
        invariant
            i <= rec.fields@.len(),
            rec@.len() == rec.fields@.len(),
            out@ == html_header() + html_rows(rec@.take(i as int)),
        decreases rec.fields@.len() - i,
    {
        out.push(LT);
        out.push(112);
        out.push(GT);
        esc_html_into(&mut out, rec.fields[i].name.as_slice());
        out.push(COLON);
        out.push(SPACE);
        esc_html_into(&mut out, rec.fields[i].value.as_slice());
        out.push(LT);
        out.push(47);
        out.push(112);
        out.push(GT);
        proof {
            assert(rec@[i as int] == (rec.fields@[i as int].name@, rec.fields@[i as int].value@));
            assert(rec@.take(i as int).push(rec@[i as int]) =~= rec@.take(i + 1));
            lemma_html_rows_push(rec@.take(i as int), rec@[i as int]);
            assert(out@ =~= html_header() + html_rows(rec@.take(i + 1)));
        }
        i = i + 1;
    }
    out.push(LT);
    out.push(47);
    out.push(98);
    out.push(111);
    out.push(100);
    out.push(121);
    out.push(GT);
    out.push(LT);
    out.push(47);
    out.push(104);
    out.push(116);
    out.push(109);
    out.push(108);
    out.push(GT);
    proof {
        assert(rec@.take(rec@.len() as int) =~= rec@);
        assert(out@ =~= html_of(rec@));
    }
    out
}

} // verus!
