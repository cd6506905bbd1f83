//! JSON text for the extracted records: writing an ordered collection as a
//! JSON array, and reading such text back.
//!
//! The reader accepts exactly the shape the writer emits — one object per
//! record, the eight fields in order, strings with `\"`, `\\` and `\u00XX`
//! escapes — so that a written collection reads back field for field.

use vstd::prelude::*;

use crate::item::{Item, ItemV};
use crate::text::{
    dec_of, digits_of, is_digit_char, lemma_digits_mono, lemma_digits_nonneg, u32_to_string,
};
use crate::time::{
    frac_digits, lemma_frac_count, parse_rfc3339, render_rfc3339, spec_parse_rfc3339,
    spec_render_rfc3339,
};

verus! {

/// Whether the character is a lower-case hexadecimal digit.
pub open spec fn is_hex_char(c: char) -> bool {
    is_digit_char(c) || (97 <= c as int && c as int <= 102)
}

/// The numeric value of a lower-case hexadecimal digit character.
pub open spec fn hex_val(c: char) -> int {
    if is_digit_char(c) {
        c as int - 48
    } else {
        c as int - 87
    }
}

/// The character for a hexadecimal digit value.
pub open spec fn hex_char(d: int) -> char {
    if d < 10 {
        crate::text::digit_char(d)
    } else if d == 10 {
        'a'
    } else if d == 11 {
        'b'
    } else if d == 12 {
        'c'
    } else if d == 13 {
        'd'
    } else if d == 14 {
        'e'
    } else {
        'f'
    }
}

/// How one character is written inside a JSON string: quote and backslash
/// escaped, a control character as `\u00XX`, anything else as itself.
pub open spec fn esc_char(c: char) -> Seq<char> {
    if c == '"' {
        seq!['\\', '"']
    } else if c == '\\' {
        seq!['\\', '\\']
    } else if (c as int) < 32 {
        seq!['\\', 'u', '0', '0', hex_char(c as int / 16), hex_char(c as int % 16)]
    } else {
        seq![c]
    }
}

/// How a text is written inside a JSON string.
pub open spec fn escape(s: Seq<char>) -> Seq<char>
    decreases s.len(),
{
    if s.len() == 0 {
        Seq::empty()
    } else {
        esc_char(s[0]) + escape(s.skip(1))
    }
}

/// A JSON string: the escaped text between quotes.
pub open spec fn json_string_of(s: Seq<char>) -> Seq<char> {
    seq!['"'] + escape(s) + seq!['"']
}

/// The JSON object of one record: the eight fields in order, the timestamp
/// as an RFC 3339 string.
#[verifier::opaque]
pub open spec fn item_json_of(v: ItemV) -> Seq<char> {
    "{\"count\":"@ + dec_of(v.count as int) + ",\"title\":"@ + json_string_of(v.title)
        + ",\"href\":"@ + json_string_of(v.href) + ",\"date_published\":"@ + json_string_of(
        spec_render_rfc3339(v.date_published),
    ) + ",\"source\":"@ + json_string_of(v.source) + ",\"description\":"@ + json_string_of(
        v.description,
    ) + ",\"author\":"@ + json_string_of(v.author) + ",\"author_url\":"@ + json_string_of(
        v.author_url,
    ) + "}"@
}

/// The objects of the records, comma-separated.
pub open spec fn inner_json_of(vs: Seq<ItemV>) -> Seq<char>
    decreases vs.len(),
{
    if vs.len() <= 1 {
        item_json_of(vs[0])
    } else {
        item_json_of(vs[0]) + seq![','] + inner_json_of(vs.skip(1))
    }
}

/// The JSON array of the records, in order.
pub open spec fn items_json_of(vs: Seq<ItemV>) -> Seq<char> {
    if vs.len() == 0 {
        "[]"@
    } else {
        seq!['['] + inner_json_of(vs) + seq![']']
    }
}

/// All the records' timestamps are well-formed.
pub open spec fn spec_items_wf(items: Seq<Item>) -> bool {
    forall|i: int| 0 <= i < items.len() ==> (#[trigger] items[i]@).date_published.wf()
}

/// Decide whether all the records' timestamps are well-formed.
pub fn all_timestamps_wf(items: &Vec<Item>) -> (r: bool)
    ensures
        r == spec_items_wf(items@),
{
    let mut i: usize = 0;
    while i < items.len()
        invariant
            0 <= i <= items@.len(),
            forall|k: int| 0 <= k < i ==> (#[trigger] items@[k]@).date_published.wf(),
        decreases items@.len() - i,
    {
        if !items[i].date_published.check_wf() {
            proof {
                assert(!(items@[i as int]@).date_published.wf());
            }
            return false;
        }
        i = i + 1;
    }
    true
}

/// The one-character text of a hexadecimal digit value.
fn hex_str(d: u32) -> (r: &'static str)
    requires
        d <= 15,
    ensures
        r@ =~= seq![hex_char(d as int)],
{
    if d <= 9 {
        crate::text::digit_str(d)
    } else {
        proof {
            reveal_strlit("a");
            reveal_strlit("b");
            reveal_strlit("c");
            reveal_strlit("d");
            reveal_strlit("e");
            reveal_strlit("f");
        }
        match d {
            10 => "a",
            11 => "b",
            12 => "c",
            13 => "d",
            14 => "e",
            _ => "f",
        }
    }
}

/// Escaping one more character appends its escape.
proof fn lemma_escape_snoc(t: Seq<char>, c: char)
    ensures
        escape(t.push(c)) == escape(t) + esc_char(c),
    decreases t.len(),
{
    if t.len() == 0 {
        assert(t.push(c)[0] == c);
        assert(t.push(c).skip(1) =~= Seq::<char>::empty());
        assert(escape(Seq::<char>::empty()) == Seq::<char>::empty());
        assert(escape(t.push(c)) == esc_char(c) + escape(t.push(c).skip(1)));
        assert(esc_char(c) + Seq::<char>::empty() =~= esc_char(c));
        assert(escape(t) + esc_char(c) =~= esc_char(c));
    } else {
        assert(t.push(c).skip(1) =~= t.skip(1).push(c));
        assert(t.push(c)[0] == t[0]);
        lemma_escape_snoc(t.skip(1), c);
        assert(escape(t.push(c)) == esc_char(t[0]) + escape(t.skip(1).push(c)));
        assert(escape(t.skip(1).push(c)) == escape(t.skip(1)) + esc_char(c));
        assert(esc_char(t[0]) + (escape(t.skip(1)) + esc_char(c)) =~= (esc_char(t[0]) + escape(
            t.skip(1),
        )) + esc_char(c));
    }
}

/// Append the text as a JSON string, quotes and escapes included.
fn push_json_string(out: &mut String, s: &str)
    ensures
        final(out)@ == old(out)@ + json_string_of(s@),
{
    proof {
        reveal_strlit("\"");
        reveal_strlit("\\\"");
        reveal_strlit("\\\\");
        reveal_strlit("\\u00");
    }
    out.append("\"");
    let n = s.unicode_len();
    let mut i: usize = 0;
    proof {
        assert(s@.take(0) =~= Seq::<char>::empty());
        assert(out@ =~= old(out)@ + seq!['"'] + escape(s@.take(0)));
    }
    while i < n
        invariant
            0 <= i <= n,
            n == s@.len(),
            out@ == old(out)@ + seq!['"'] + escape(s@.take(i as int)),
        decreases n - i,
    {
        let c = s.get_char(i);
        let u = c as u32;
        if c == '"' {
            out.append("\\\"");
        } else if c == '\\' {
            out.append("\\\\");
        } else if u < 32 {
            out.append("\\u00");
            out.append(hex_str(u / 16));
            out.append(hex_str(u % 16));
        } else {
            out.push(c);
        }
        proof {
            reveal_strlit("\\\"");
            reveal_strlit("\\\\");
            reveal_strlit("\\u00");
            lemma_escape_snoc(s@.take(i as int), c);
            assert(s@.take(i as int).push(c) =~= s@.take(i as int + 1));
            assert(out@ =~= old(out)@ + seq!['"'] + escape(s@.take(i as int + 1)));
        }
        i = i + 1;
    }
    out.append("\"");
    proof {
        assert(s@.take(n as int) =~= s@);
        assert(out@ =~= old(out)@ + json_string_of(s@));
    }
}

/// Append the record as a JSON object.
#[verifier::rlimit(100)]
fn push_item_json(out: &mut String, item: &Item)
    requires
        item.date_published.wf(),
    ensures
        final(out)@ == old(out)@ + item_json_of(item@),
{
    out.append("{\"count\":");
    let num = u32_to_string(item.count);
    out.append(num.as_str());
    out.append(",\"title\":");
    push_json_string(out, item.title.as_str());
    out.append(",\"href\":");
    push_json_string(out, item.href.as_str());
    out.append(",\"date_published\":");
    let ds = render_rfc3339(&item.date_published);
    push_json_string(out, ds.as_str());
    out.append(",\"source\":");
    push_json_string(out, item.source.as_str());
    out.append(",\"description\":");
    push_json_string(out, item.description.as_str());
    out.append(",\"author\":");
    push_json_string(out, item.author.as_str());
    out.append(",\"author_url\":");
    push_json_string(out, item.author_url.as_str());
    out.append("}");
    proof {
        reveal(item_json_of);
        assert(out@ =~= old(out)@ + item_json_of(item@));
    }
}

/// A further record's object extends the comma-separated run.
proof fn lemma_inner_snoc(us: Seq<ItemV>, v: ItemV)
    requires
        us.len() >= 1,
    ensures
        inner_json_of(us.push(v)) == inner_json_of(us) + seq![','] + item_json_of(v),
    decreases us.len(),
{
    if us.len() == 1 {
        assert(us.push(v).skip(1) =~= seq![v]);
        assert(us.push(v)[0] == us[0]);
        assert(seq![v][0] == v);
        assert(inner_json_of(us.push(v)) == item_json_of(us[0]) + seq![','] + inner_json_of(
            us.push(v).skip(1),
        ));
        assert(inner_json_of(seq![v]) == item_json_of(v));
        assert(inner_json_of(us) == item_json_of(us[0]));
    } else {
        assert(us.push(v).skip(1) =~= us.skip(1).push(v));
        assert(us.push(v)[0] == us[0]);
        lemma_inner_snoc(us.skip(1), v);
        assert(inner_json_of(us.push(v)) =~= inner_json_of(us) + seq![','] + item_json_of(v));
    }
}

/// Write the records as a JSON array, in order.
pub fn items_to_json(items: &Vec<Item>) -> (r: String)
    requires
        spec_items_wf(items@),
    ensures
        r@ == items_json_of(items@.map_values(|it: Item| it@)),
{
    let ghost vs = items@.map_values(|it: Item| it@);
    if items.len() == 0 {
        return "[]".to_owned();
    }
    proof {
        reveal_strlit("[");
        reveal_strlit("]");
        reveal_strlit(",");
    }
    let mut out = String::from_str("[");
    proof {
        assert((items@[0]@).date_published.wf());
    }
    push_item_json(&mut out, &items[0]);
    proof {
        assert(vs.take(1)[0] == vs[0]);
        assert(out@ =~= seq!['['] + inner_json_of(vs.take(1)));
    }
    let mut i: usize = 1;
    while i < items.len()
        invariant
            1 <= i <= items@.len(),
            vs == items@.map_values(|it: Item| it@),
            vs.len() == items@.len(),
            spec_items_wf(items@),
            out@ == seq!['['] + inner_json_of(vs.take(i as int)),
        decreases items@.len() - i,
    {
        out.append(",");
        proof {
            reveal_strlit(",");
            assert((items@[i as int]@).date_published.wf());
        }
        push_item_json(&mut out, &items[i]);
        proof {
            reveal_strlit(",");
            lemma_inner_snoc(vs.take(i as int), vs[i as int]);
            assert(vs.take(i as int).push(vs[i as int]) =~= vs.take(i as int + 1));
            assert(out@ =~= seq!['['] + inner_json_of(vs.take(i as int + 1)));
        }
        i = i + 1;
    }
    out.append("]");
    proof {
        assert(vs.take(vs.len() as int) =~= vs);
        assert(out@ =~= items_json_of(vs));
    }
    out
}

/// The rest of the text after the literal, where the text begins with it.
pub open spec fn expect(s: Seq<char>, lit: Seq<char>) -> Option<Seq<char>> {
    if lit.len() <= s.len() && s.take(lit.len() as int) == lit {
        Some(s.skip(lit.len() as int))
    } else {
        None
    }
}

/// Prefix a parsed text with one character.
pub open spec fn cons_unesc(c: char, r: Option<(Seq<char>, Seq<char>)>) -> Option<
    (Seq<char>, Seq<char>),
> {
    match r {
        None => None,
        Some((t, rem)) => Some((seq![c] + t, rem)),
    }
}

/// Read an escaped string body up to its closing quote: the text it denotes
/// and the rest after the quote.
pub open spec fn unesc(s: Seq<char>) -> Option<(Seq<char>, Seq<char>)>
    decreases s.len(),
{
    if s.len() == 0 {
        None
    } else if s[0] == '"' {
        Some((Seq::empty(), s.skip(1)))
    } else if s[0] == '\\' {
        if s.len() < 2 {
            None
        } else if s[1] == '"' {
            cons_unesc('"', unesc(s.skip(2)))
        } else if s[1] == '\\' {
            cons_unesc('\\', unesc(s.skip(2)))
        } else if s[1] == 'u' {
            if s.len() < 6 {
                None
            } else if is_hex_char(s[2]) && is_hex_char(s[3]) && is_hex_char(s[4]) && is_hex_char(
                s[5],
            ) {
                let v = 4096 * hex_val(s[2]) + 256 * hex_val(s[3]) + 16 * hex_val(s[4]) + hex_val(
                    s[5],
                );
                if v < 128 {
                    cons_unesc((v as u32) as char, unesc(s.skip(6)))
                } else {
                    None
                }
            } else {
                None
            }
        } else {
            None
        }
    } else {
        cons_unesc(s[0], unesc(s.skip(1)))
    }
}

/// Read a JSON string: a quote, the escaped body, the closing quote.
pub open spec fn parse_string_at(s: Seq<char>) -> Option<(Seq<char>, Seq<char>)> {
    if s.len() >= 1 && s[0] == '"' {
        unesc(s.skip(1))
    } else {
        None
    }
}

/// Read a decimal `u32`: one or more digits whose value fits.
pub open spec fn parse_num(s: Seq<char>) -> Option<(u32, Seq<char>)> {
    let k = frac_digits(s, 0);
    if k == 0 {
        None
    } else if digits_of(s.take(k)) > u32::MAX {
        None
    } else {
        Some((digits_of(s.take(k)) as u32, s.skip(k)))
    }
}

/// Read one record's object: the eight fields in order, the timestamp field
/// as RFC 3339 text.
pub open spec fn parse_item(s: Seq<char>) -> Option<(ItemV, Seq<char>)> {
    match expect(s, "{\"count\":"@) {
        None => None,
        Some(s1) => match parse_num(s1) {
            None => None,
            Some((count, s2)) => match expect(s2, ",\"title\":"@) {
                None => None,
                Some(s3) => match parse_string_at(s3) {
                    None => None,
                    Some((title, s4)) => match expect(s4, ",\"href\":"@) {
                        None => None,
                        Some(s5) => match parse_string_at(s5) {
                            None => None,
                            Some((href, s6)) => match expect(s6, ",\"date_published\":"@) {
                                None => None,
                                Some(s7) => match parse_string_at(s7) {
                                    None => None,
                                    Some((dstr, s8)) => match spec_parse_rfc3339(dstr) {
                                        None => None,
                                        Some(ts) => match expect(s8, ",\"source\":"@) {
                                            None => None,
                                            Some(s9) => match parse_string_at(s9) {
                                                None => None,
                                                Some((source, s10)) => match expect(
                                                    s10,
                                                    ",\"description\":"@,
                                                ) {
                                                    None => None,
                                                    Some(s11) => match parse_string_at(s11) {
                                                        None => None,
                                                        Some((description, s12)) => match expect(
                                                            s12,
                                                            ",\"author\":"@,
                                                        ) {
                                                            None => None,
                                                            Some(s13) => match parse_string_at(
                                                                s13,
                                                            ) {
                                                                None => None,
                                                                Some((author, s14)) => match expect(
                                                                    s14,
                                                                    ",\"author_url\":"@,
                                                                ) {
                                                                    None => None,
                                                                    Some(s15) => match parse_string_at(
                                                                        s15,
                                                                    ) {
                                                                        None => None,
                                                                        Some((author_url, s16)) => match expect(
                                                                            s16,
                                                                            "}"@,
                                                                        ) {
                                                                            None => None,
                                                                            Some(rest) => Some(
                                                                                (
                                                                                    ItemV {
                                                                                        count,
                                                                                        title,
                                                                                        href,
                                                                                        date_published: ts,
                                                                                        source,
                                                                                        description,
                                                                                        author,
                                                                                        author_url,
                                                                                    },
                                                                                    rest,
                                                                                ),
                                                                            ),
                                                                        },
                                                                    },
                                                                },
                                                            },
                                                        },
                                                    },
                                                },
                                            },
                                        },
                                    },
                                },
                            },
                        },
                    },
                },
            },
        },
    }
}

/// Prefix a parsed run of records with some already read.
pub open spec fn prepend_items(vs: Seq<ItemV>, r: Option<Seq<ItemV>>) -> Option<Seq<ItemV>> {
    match r {
        None => None,
        Some(t) => Some(vs + t),
    }
}

/// Read records separated by commas, ending at the closing bracket that ends
/// the text.
pub open spec fn parse_inner(s: Seq<char>) -> Option<Seq<ItemV>>
    decreases s.len(),
{
    match parse_item(s) {
        None => None,
        Some((v, rem)) => if rem.len() == 1 && rem[0] == ']' {
            Some(seq![v])
        } else if rem.len() >= 1 && rem[0] == ',' && rem.len() < s.len() {
            prepend_items(seq![v], parse_inner(rem.skip(1)))
        } else {
            None
        },
    }
}

/// Read a whole JSON array of records, which must span the text exactly.
pub open spec fn parse_items(s: Seq<char>) -> Option<Seq<ItemV>> {
    if s.len() == 2 && s[0] == '[' && s[1] == ']' {
        Some(Seq::empty())
    } else if s.len() >= 1 && s[0] == '[' {
        parse_inner(s.skip(1))
    } else {
        None
    }
}

/// Relies on `char::from_u32`: every value below 128 is a Unicode scalar, so
/// the conversion succeeds and yields the character with that value.
#[verifier::external_body]
fn low_char(v: u32) -> (r: char)
    requires
        v < 128,
    ensures
        r == (v as char),
{
    char::from_u32(v).unwrap()
}

/// The hexadecimal digit value at position `k`, or `None` where none stands.
fn hex_at(s: &str, k: usize) -> (r: Option<u32>)
    requires
        k < s@.len(),
    ensures
        r matches Some(h) ==> is_hex_char(s@[k as int]) && h == hex_val(s@[k as int]) && h <= 15,
        r is None ==> !is_hex_char(s@[k as int]),
{
    let c = s.get_char(k);
    let u = c as u32;
    if 48 <= u && u <= 57 {
        Some(u - 48)
    } else if 97 <= u && u <= 102 {
        Some(u - 87)
    } else {
        None
    }
}

/// Pass the literal at position `i`, or report that it does not stand there.
fn expect_lit(s: &str, i: usize, lit: &str) -> (r: Option<usize>)
    requires
        i <= s@.len(),
    ensures
        r matches Some(j) ==> i <= j <= s@.len() && j - i == lit@.len() && expect(
            s@.skip(i as int),
            lit@,
        ) == Some(s@.skip(j as int)),
        r is None ==> expect(s@.skip(i as int), lit@) is None,
{
    let n = s.unicode_len();
    let m = lit.unicode_len();
    if n - i < m {
        return None;
    }
    let mut k: usize = 0;
    while k < m
        invariant
            0 <= k <= m,
            m == lit@.len(),
            n == s@.len(),
            i + m <= n,
            forall|t: int| 0 <= t < k ==> s@[i + t] == lit@[t],
        decreases m - k,
    {
        if s.get_char(i + k) != lit.get_char(k) {
            proof {
                let sub = s@.skip(i as int);
                assert(sub.take(m as int)[k as int] == s@[i + k]);
                assert(sub.take(m as int) != lit@);
            }
            return None;
        }
        k = k + 1;
    }
    proof {
        assert(s@.skip(i as int).take(m as int) =~= lit@);
        assert(s@.skip(i as int).skip(m as int) =~= s@.skip(i as int + m));
    }
    Some(i + m)
}

/// Read the decimal `u32` at position `i`.
fn parse_json_number(s: &str, i: usize) -> (r: Option<(u32, usize)>)
    requires
        i <= s@.len(),
    ensures
        r matches Some(p) ==> i < p.1 <= s@.len() && parse_num(s@.skip(i as int)) == Some(
            (p.0, s@.skip(p.1 as int)),
        ),
        r is None ==> parse_num(s@.skip(i as int)) is None,
{
    let ghost sub = s@.skip(i as int);
    let n = s.unicode_len();
    let mut j: usize = i;
    while j < n && crate::time::digit_at_is_some(s, j)
        invariant
            i <= j <= n,
            n == s@.len(),
            sub == s@.skip(i as int),
            forall|k: int| 0 <= k < j - i ==> is_digit_char(sub[k]),
        decreases n - j,
    {
        j = j + 1;
    }
    proof {
        lemma_frac_count(sub, 0, j - i);
    }
    if j == i {
        return None;
    }
    let ghost ds = sub.take(j - i);
    let mut val: u32 = 0;
    let mut m: usize = i;
    while m < j
        invariant
            i <= m <= j,
            j <= n,
            n == s@.len(),
            sub == s@.skip(i as int),
            ds == sub.take(j - i),
            frac_digits(sub, 0) == j - i,
            forall|k: int| 0 <= k < j - i ==> is_digit_char(sub[k]),
            val == digits_of(sub.take(m - i)),
        decreases j - m,
    {
        let c = s.get_char(m);
        let u = c as u32;
        proof {
            assert(sub[m - i] == s@[m as int]);
            assert(is_digit_char(s@[m as int]));
        }
        let d = u - 48;
        let ghost prefix = sub.take(m - i);
        let ghost prefix1 = sub.take(m - i + 1);
        proof {
            assert(prefix1.drop_last() =~= prefix);
            assert(prefix1.last() == sub[m - i]);
            assert(digits_of(prefix1) == val * 10 + d);
            assert(forall|k: int| 0 <= k < ds.len() ==> is_digit_char(ds[k]));
        }
        let next = match val.checked_mul(10) {
            Some(v) => match v.checked_add(d) {
                Some(v2) => v2,
                None => {
                    proof {
                        assert(ds.take(m - i + 1) =~= prefix1);
                        lemma_digits_mono(ds, m - i + 1);
                    }
                    return None;
                },
            },
            None => {
                proof {
                    lemma_digits_nonneg(prefix);
                    assert(digits_of(prefix1) >= val * 10);
                    assert(ds.take(m - i + 1) =~= prefix1);
                    lemma_digits_mono(ds, m - i + 1);
                }
                return None;
            },
        };
        val = next;
        m = m + 1;
    }
    proof {
        assert(sub.take(j - i) == ds);
        assert(sub.skip(j - i) =~= s@.skip(j as int));
    }
    Some((val, j))
}

/// Prefixing a parsed text commutes with reading one more character.
proof fn lemma_prepend_cons(a: Seq<char>, c: char, x: Option<(Seq<char>, Seq<char>)>)
    ensures
        prepend_unesc(a, cons_unesc(c, x)) == prepend_unesc(a.push(c), x),
{
    match x {
        None => {},
        Some((t, rem)) => {
            assert(a + (seq![c] + t) =~= a.push(c) + t);
        },
    }
}

/// Prefix a parsed text with characters already read.
pub open spec fn prepend_unesc(a: Seq<char>, r: Option<(Seq<char>, Seq<char>)>) -> Option<
    (Seq<char>, Seq<char>),
> {
    match r {
        None => None,
        Some((t, rem)) => Some((a + t, rem)),
    }
}

/// Read the JSON string at position `i`.
fn parse_json_string_at(s: &str, i: usize) -> (r: Option<(String, usize)>)
    requires
        i <= s@.len(),
    ensures
        r matches Some(p) ==> i < p.1 <= s@.len() && parse_string_at(s@.skip(i as int)) == Some(
            (p.0@, s@.skip(p.1 as int)),
        ),
        r is None ==> parse_string_at(s@.skip(i as int)) is None,
{
    let n = s.unicode_len();
    if i >= n || s.get_char(i) != '"' {
        return None;
    }
    let mut out = String::new();
    let mut j: usize = i + 1;
    proof {
        assert(s@.skip(i as int)[0] == s@[i as int]);
        assert(s@.skip(i as int).skip(1) =~= s@.skip(i as int + 1));
        assert(out@ =~= Seq::<char>::empty());
        assert(prepend_unesc(out@, unesc(s@.skip(i as int + 1))) == unesc(s@.skip(i as int + 1)))
            by {
            match unesc(s@.skip(i as int + 1)) {
                None => {},
                Some((t, rem)) => {
                    assert(Seq::<char>::empty() + t =~= t);
                },
            }
        }
    }
    loop
        invariant
            i + 1 <= j <= n,
            n == s@.len(),
            parse_string_at(s@.skip(i as int)) == prepend_unesc(out@, unesc(s@.skip(j as int))),
        decreases n - j,
    {
        if j >= n {
            return None;
        }
        let c = s.get_char(j);
        let ghost rem = s@.skip(j as int);
        proof {
            assert(rem[0] == s@[j as int]);
            assert(rem.skip(1) =~= s@.skip(j as int + 1));
        }
        if c == '"' {
            proof {
                assert(out@ + Seq::<char>::empty() =~= out@);
            }
            return Some((out, j + 1));
        } else if c == '\\' {
            if j + 1 >= n {
                return None;
            }
            let e = s.get_char(j + 1);
            proof {
                assert(rem[1] == s@[j as int + 1]);
                assert(rem.skip(2) =~= s@.skip(j as int + 2));
            }
            if e == '"' {
                proof {
                    lemma_prepend_cons(out@, '"', unesc(s@.skip(j as int + 2)));
                }
                out.push('"');
                j = j + 2;
            } else if e == '\\' {
                proof {
                    lemma_prepend_cons(out@, '\\', unesc(s@.skip(j as int + 2)));
                }
                out.push('\\');
                j = j + 2;
            } else if e == 'u' {
                if n - j < 6 {
                    return None;
                }
                proof {
                    assert(rem[2] == s@[j as int + 2]);
                    assert(rem[3] == s@[j as int + 3]);
                    assert(rem[4] == s@[j as int + 4]);
                    assert(rem[5] == s@[j as int + 5]);
                    assert(rem.skip(6) =~= s@.skip(j as int + 6));
                }
                let h2 = match hex_at(s, j + 2) {
                    Some(h) => h,
                    None => {
                        return None;
                    },
                };
                let h3 = match hex_at(s, j + 3) {
                    Some(h) => h,
                    None => {
                        return None;
                    },
                };
                let h4 = match hex_at(s, j + 4) {
                    Some(h) => h,
                    None => {
                        return None;
                    },
                };
                let h5 = match hex_at(s, j + 5) {
                    Some(h) => h,
                    None => {
                        return None;
                    },
                };
                let v = 4096 * h2 + 256 * h3 + 16 * h4 + h5;
                if v >= 128 {
                    return None;
                }
                let ch = low_char(v);
                proof {
                    lemma_prepend_cons(out@, ch, unesc(s@.skip(j as int + 6)));
                }
                out.push(ch);
                j = j + 6;
            } else {
                return None;
            }
        } else {
            proof {
                lemma_prepend_cons(out@, c, unesc(s@.skip(j as int + 1)));
            }
            out.push(c);
            j = j + 1;
        }
    }
}

/// Read the record object at position `i`.
fn parse_item_at(s: &str, i: usize) -> (r: Option<(Item, usize)>)
    requires
        i <= s@.len(),
    ensures
        r matches Some(p) ==> i < p.1 <= s@.len() && parse_item(s@.skip(i as int)) == Some(
            (p.0@, s@.skip(p.1 as int)),
        ),
        r is None ==> parse_item(s@.skip(i as int)) is None,
{
    proof {
        reveal_strlit("{\"count\":");
    }
    let j1 = match expect_lit(s, i, "{\"count\":") {
        Some(j) => j,
        None => {
            return None;
        },
    };
    let (count, j2) = match parse_json_number(s, j1) {
        Some(p) => p,
        None => {
            return None;
        },
    };
    let j3 = match expect_lit(s, j2, ",\"title\":") {
        Some(j) => j,
        None => {
            return None;
        },
    };
    let (title, j4) = match parse_json_string_at(s, j3) {
        Some(p) => p,
        None => {
            return None;
        },
    };
    let j5 = match expect_lit(s, j4, ",\"href\":") {
        Some(j) => j,
        None => {
            return None;
        },
    };
    let (href, j6) = match parse_json_string_at(s, j5) {
        Some(p) => p,
        None => {
            return None;
        },
    };
    let j7 = match expect_lit(s, j6, ",\"date_published\":") {
        Some(j) => j,
        None => {
            return None;
        },
    };
    let (dstr, j8) = match parse_json_string_at(s, j7) {
        Some(p) => p,
        None => {
            return None;
        },
    };
    let ts = match parse_rfc3339(dstr.as_str()) {
        Some(t) => t,
        None => {
            return None;
        },
    };
    let j9 = match expect_lit(s, j8, ",\"source\":") {
        Some(j) => j,
        None => {
            return None;
        },
    };
    let (source, j10) = match parse_json_string_at(s, j9) {
        Some(p) => p,
        None => {
            return None;
        },
    };
    let j11 = match expect_lit(s, j10, ",\"description\":") {
        Some(j) => j,
        None => {
            return None;
        },
    };
    let (description, j12) = match parse_json_string_at(s, j11) {
        Some(p) => p,
        None => {
            return None;
        },
    };
    let j13 = match expect_lit(s, j12, ",\"author\":") {
        Some(j) => j,
        None => {
            return None;
        },
    };
    let (author, j14) = match parse_json_string_at(s, j13) {
        Some(p) => p,
        None => {
            return None;
        },
    };
    let j15 = match expect_lit(s, j14, ",\"author_url\":") {
        Some(j) => j,
        None => {
            return None;
        },
    };
    let (author_url, j16) = match parse_json_string_at(s, j15) {
        Some(p) => p,
        None => {
            return None;
        },
    };
    let rest = match expect_lit(s, j16, "}") {
        Some(j) => j,
        None => {
            return None;
        },
    };
    let item = Item {
        count,
        title,
        href,
        date_published: ts,
        source,
        description,
        author,
        author_url,
    };
    Some((item, rest))
}

/// Read a JSON array of records, as `items_to_json` writes it.  The text
/// must hold exactly one array and nothing more.
pub fn items_from_json(s: &str) -> (r: Option<Vec<Item>>)
    ensures
        r matches Some(items) ==> parse_items(s@) == Some(items@.map_values(|it: Item| it@)),
        r is None ==> parse_items(s@) is None,
{
    let n = s.unicode_len();
    if n == 0 {
        return None;
    }
    if s.get_char(0) != '[' {
        return None;
    }
    if n == 2 && s.get_char(1) == ']' {
        let empty_items: Vec<Item> = Vec::new();
        proof {
            assert(empty_items@.map_values(|it: Item| it@) =~= Seq::<ItemV>::empty());
        }
        return Some(empty_items);
    }
    let mut items: Vec<Item> = Vec::new();
    let mut i: usize = 1;
    loop
        invariant
            1 <= i <= n,
            n == s@.len(),
            n >= 1,
            s@[0] == '[',
            !(n == 2 && s@[1] == ']'),
            prepend_items(
                items@.map_values(|it: Item| it@),
                parse_inner(s@.skip(i as int)),
            ) == parse_items(s@),
        decreases n - i,
    {
        let (item, j) = match parse_item_at(s, i) {
            Some(p) => p,
            None => {
                return None;
            },
        };
        let ghost rem = s@.skip(j as int);
        if j < n && s.get_char(j) == ',' {
            proof {
                assert(rem[0] == s@[j as int]);
                assert(rem.skip(1) =~= s@.skip(j as int + 1));
                assert(rem.len() < s@.skip(i as int).len());
                lemma_prepend_items_snoc(items@, item, parse_inner(s@.skip(j as int + 1)));
            }
            items.push(item);
            i = j + 1;
        } else if j == n - 1 && s.get_char(j) == ']' {
            proof {
                assert(rem.len() == 1 && rem[0] == ']');
                assert(parse_inner(s@.skip(i as int)) == Some(seq![item@]));
                let vs = items@.map_values(|it: Item| it@);
                let mut pushed = items@.push(item);
                assert(pushed.map_values(|it: Item| it@) =~= vs + seq![item@]);
            }
            let mut out = items;
            out.push(item);
            return Some(out);
        } else {
            proof {
                assert(parse_inner(s@.skip(i as int)) is None) by {
                    if rem.len() == 1 && rem[0] == ']' {
                        assert(s@[j as int] == ']' && j == n - 1);
                    }
                }
            }
            return None;
        }
    }
}

/// A character's value is a non-negative Unicode scalar.
proof fn lemma_char_range(c: char)
    ensures
        0 <= c as int && (c as int) < 0x110000,
{
}

proof fn lemma_hex_char_val(d: int)
    requires
        0 <= d <= 15,
    ensures
        is_hex_char(hex_char(d)),
        hex_val(hex_char(d)) == d,
{
    if d < 10 {
        crate::text::lemma_digit_char_val(d);
    }
}

/// A text that begins with the literal passes it.
proof fn lemma_expect_prefix(a: Seq<char>, b: Seq<char>)
    ensures
        expect(a + b, a) == Some(b),
{
    assert((a + b).take(a.len() as int) =~= a);
    assert((a + b).skip(a.len() as int) =~= b);
}

/// The decimal digits of a number, followed by a non-digit, read back as it.
proof fn lemma_parse_num_dec(n: u32, rest: Seq<char>)
    requires
        rest.len() >= 1,
        !is_digit_char(rest[0]),
    ensures
        parse_num(dec_of(n as int) + rest) == Some((n, rest)),
{
    let ds = dec_of(n as int);
    crate::text::lemma_dec_of_digits(n as int);
    let s = ds + rest;
    assert(forall|k: int| 0 <= k < ds.len() ==> is_digit_char(s[k])) by {
        assert(forall|k: int| 0 <= k < ds.len() ==> s[k] == ds[k]);
    }
    assert(s[ds.len() as int] == rest[0]);
    lemma_frac_count(s, 0, ds.len() as int);
    assert(s.take(ds.len() as int) =~= ds);
    assert(s.skip(ds.len() as int) =~= rest);
}

/// An escaped text, a closing quote and a rest read back as the text and the
/// rest.
proof fn lemma_unesc_escape(t: Seq<char>, u: Seq<char>)
    ensures
        unesc(escape(t) + seq!['"'] + u) == Some((t, u)),
    decreases t.len(),
{
    let s = escape(t) + seq!['"'] + u;
    if t.len() == 0 {
        assert(escape(t) == Seq::<char>::empty());
        assert(s[0] == '"');
        assert(s.skip(1) =~= u);
        assert(t =~= Seq::<char>::empty());
    } else {
        let c = t[0];
        let t1 = t.skip(1);
        lemma_unesc_escape(t1, u);
        let s1 = escape(t1) + seq!['"'] + u;
        assert(escape(t) == esc_char(c) + escape(t1));
        assert(s =~= esc_char(c) + s1);
        if c == '"' {
            assert(s[0] == '\\' && s[1] == '"');
            assert(s.skip(2) =~= s1);
            assert(unesc(s) == cons_unesc('"', unesc(s1)));
            assert(seq!['"'] + t1 =~= t);
        } else if c == '\\' {
            assert(s[0] == '\\' && s[1] == '\\');
            assert(s.skip(2) =~= s1);
            assert(unesc(s) == cons_unesc('\\', unesc(s1)));
            assert(seq!['\\'] + t1 =~= t);
        } else if (c as int) < 32 {
            let v = c as int;
            lemma_char_range(c);
            lemma_hex_char_val(0);
            lemma_hex_char_val(v / 16);
            lemma_hex_char_val(v % 16);
            assert(s[0] == '\\' && s[1] == 'u' && s[2] == '0' && s[3] == '0');
            assert(s[4] == hex_char(v / 16) && s[5] == hex_char(v % 16));
            assert(hex_val('0') == 0) by {
                crate::text::lemma_digit_char_val(0);
            }
            vstd::arithmetic::div_mod::lemma_fundamental_div_mod(v, 16);
            assert(4096 * hex_val(s[2]) + 256 * hex_val(s[3]) + 16 * hex_val(s[4]) + hex_val(s[5])
                == v);
            assert(s.skip(6) =~= s1);
            vstd::utf8::char_u32_cast(c, c as u32);
            assert((v as u32) as char == c);
            assert(unesc(s) == cons_unesc(c, unesc(s1)));
            assert(seq![c] + t1 =~= t);
        } else {
            assert(s[0] == c && c != '"' && c != '\\');
            assert(s.skip(1) =~= s1);
            assert(unesc(s) == cons_unesc(c, unesc(s1)));
            assert(seq![c] + t1 =~= t);
        }
    }
}

/// A written JSON string and a rest read back as its text and the rest.
proof fn lemma_parse_string_of(t: Seq<char>, u: Seq<char>)
    ensures
        parse_string_at(json_string_of(t) + u) == Some((t, u)),
{
    let s = json_string_of(t) + u;
    assert(s[0] == '"');
    assert(s.skip(1) =~= escape(t) + seq!['"'] + u);
    lemma_unesc_escape(t, u);
}

/// A record's object is never empty.
proof fn lemma_item_json_len(v: ItemV)
    ensures
        item_json_of(v).len() >= 1,
{
    reveal(item_json_of);
    reveal_strlit("{\"count\":");
}

/// A run of record objects is never empty.
proof fn lemma_inner_len(vs: Seq<ItemV>)
    requires
        vs.len() >= 1,
    ensures
        inner_json_of(vs).len() >= 1,
{
    lemma_item_json_len(vs[0]);
}

/// A record's object, written out and followed by a rest, regrouped to the
/// right: each literal, number and string stands before all that follows it.
spec fn item_json_unrolled(v: ItemV, rest: Seq<char>) -> Seq<char> {
    "{\"count\":"@ + (dec_of(v.count as int) + (",\"title\":"@ + (json_string_of(v.title) + (
    ",\"href\":"@ + (json_string_of(v.href) + (",\"date_published\":"@ + (json_string_of(
        spec_render_rfc3339(v.date_published),
    ) + (",\"source\":"@ + (json_string_of(v.source) + (",\"description\":"@ + (
    json_string_of(v.description) + (",\"author\":"@ + (json_string_of(v.author) + (
    ",\"author_url\":"@ + (json_string_of(v.author_url) + ("}"@ + rest))))))))))))))))
}

/// Three texts concatenate the same however they are grouped.
proof fn lemma_assoc(a: Seq<char>, b: Seq<char>, c: Seq<char>)
    ensures
        (a + b) + c == a + (b + c),
{
    assert((a + b) + c =~= a + (b + c));
}

/// Concatenation regroups to the right.
proof fn lemma_item_json_unroll(v: ItemV, rest: Seq<char>)
    ensures
        item_json_of(v) + rest == item_json_unrolled(v, rest),
{
    reveal(item_json_of);
    let p1: Seq<char> = "{\"count\":"@;
    let p2: Seq<char> = dec_of(v.count as int);
    let p3: Seq<char> = ",\"title\":"@;
    let p4: Seq<char> = json_string_of(v.title);
    let p5: Seq<char> = ",\"href\":"@;
    let p6: Seq<char> = json_string_of(v.href);
    let p7: Seq<char> = ",\"date_published\":"@;
    let p8: Seq<char> = json_string_of(spec_render_rfc3339(v.date_published));
    let p9: Seq<char> = ",\"source\":"@;
    let p10: Seq<char> = json_string_of(v.source);
    let p11: Seq<char> = ",\"description\":"@;
    let p12: Seq<char> = json_string_of(v.description);
    let p13: Seq<char> = ",\"author\":"@;
    let p14: Seq<char> = json_string_of(v.author);
    let p15: Seq<char> = ",\"author_url\":"@;
    let p16: Seq<char> = json_string_of(v.author_url);
    let p17: Seq<char> = "}"@;
    let l2 = p1 + p2;
    let l3 = l2 + p3;
    let l4 = l3 + p4;
    let l5 = l4 + p5;
    let l6 = l5 + p6;
    let l7 = l6 + p7;
    let l8 = l7 + p8;
    let l9 = l8 + p9;
    let l10 = l9 + p10;
    let l11 = l10 + p11;
    let l12 = l11 + p12;
    let l13 = l12 + p13;
    let l14 = l13 + p14;
    let l15 = l14 + p15;
    let l16 = l15 + p16;
    let l17 = l16 + p17;
    assert(item_json_of(v) == l17);
    let t17 = p17 + rest;
    let t16 = p16 + t17;
    let t15 = p15 + t16;
    let t14 = p14 + t15;
    let t13 = p13 + t14;
    let t12 = p12 + t13;
    let t11 = p11 + t12;
    let t10 = p10 + t11;
    let t9 = p9 + t10;
    let t8 = p8 + t9;
    let t7 = p7 + t8;
    let t6 = p6 + t7;
    let t5 = p5 + t6;
    let t4 = p4 + t5;
    let t3 = p3 + t4;
    let t2 = p2 + t3;
    assert(item_json_unrolled(v, rest) == p1 + t2);
    lemma_assoc(l16, p17, rest);
    assert(l17 + rest == l16 + t17);
    lemma_assoc(l15, p16, t17);
    assert(l16 + t17 == l15 + t16);
    lemma_assoc(l14, p15, t16);
    assert(l15 + t16 == l14 + t15);
    lemma_assoc(l13, p14, t15);
    assert(l14 + t15 == l13 + t14);
    lemma_assoc(l12, p13, t14);
    assert(l13 + t14 == l12 + t13);
    lemma_assoc(l11, p12, t13);
    assert(l12 + t13 == l11 + t12);
    lemma_assoc(l10, p11, t12);
    assert(l11 + t12 == l10 + t11);
    lemma_assoc(l9, p10, t11);
    assert(l10 + t11 == l9 + t10);
    lemma_assoc(l8, p9, t10);
    assert(l9 + t10 == l8 + t9);
    lemma_assoc(l7, p8, t9);
    assert(l8 + t9 == l7 + t8);
    lemma_assoc(l6, p7, t8);
    assert(l7 + t8 == l6 + t7);
    lemma_assoc(l5, p6, t7);
    assert(l6 + t7 == l5 + t6);
    lemma_assoc(l4, p5, t6);
    assert(l5 + t6 == l4 + t5);
    lemma_assoc(l3, p4, t5);
    assert(l4 + t5 == l3 + t4);
    lemma_assoc(l2, p3, t4);
    assert(l3 + t4 == l2 + t3);
    lemma_assoc(p1, p2, t3);
    assert(l2 + t3 == p1 + t2);
}

/// A written record object and a rest read back as the record and the rest.
#[verifier::rlimit(60)]
proof fn lemma_parse_item_render(v: ItemV, rest: Seq<char>)
    requires
        v.date_published.wf(),
    ensures
        parse_item(item_json_of(v) + rest) == Some((v, rest)),
{
    reveal_strlit(",\"title\":");
    let r16 = "}"@ + rest;
    let r15 = json_string_of(v.author_url) + r16;
    let r14 = ",\"author_url\":"@ + r15;
    let r13 = json_string_of(v.author) + r14;
    let r12 = ",\"author\":"@ + r13;
    let r11 = json_string_of(v.description) + r12;
    let r10 = ",\"description\":"@ + r11;
    let r9 = json_string_of(v.source) + r10;
    let r8 = ",\"source\":"@ + r9;
    let r7 = json_string_of(spec_render_rfc3339(v.date_published)) + r8;
    let r6 = ",\"date_published\":"@ + r7;
    let r5 = json_string_of(v.href) + r6;
    let r4 = ",\"href\":"@ + r5;
    let r3 = json_string_of(v.title) + r4;
    let r2 = ",\"title\":"@ + r3;
    let r1 = dec_of(v.count as int) + r2;
    let s = item_json_of(v) + rest;
    lemma_item_json_unroll(v, rest);
    assert(s == "{\"count\":"@ + r1);
    lemma_expect_prefix("{\"count\":"@, r1);
    assert(r2[0] == ',' && !is_digit_char(','));
    lemma_parse_num_dec(v.count, r2);
    lemma_expect_prefix(",\"title\":"@, r3);
    lemma_parse_string_of(v.title, r4);
    lemma_expect_prefix(",\"href\":"@, r5);
    lemma_parse_string_of(v.href, r6);
    lemma_expect_prefix(",\"date_published\":"@, r7);
    lemma_parse_string_of(spec_render_rfc3339(v.date_published), r8);
    crate::time::lemma_rfc3339_round_trip(v.date_published);
    lemma_expect_prefix(",\"source\":"@, r9);
    lemma_parse_string_of(v.source, r10);
    lemma_expect_prefix(",\"description\":"@, r11);
    lemma_parse_string_of(v.description, r12);
    lemma_expect_prefix(",\"author\":"@, r13);
    lemma_parse_string_of(v.author, r14);
    lemma_expect_prefix(",\"author_url\":"@, r15);
    lemma_parse_string_of(v.author_url, r16);
    lemma_expect_prefix("}"@, rest);
    assert(parse_item(s) == Some((v, rest)));
}

/// A written run of record objects, closed by the bracket, reads back as the
/// records.
proof fn lemma_parse_inner_render(vs: Seq<ItemV>)
    requires
        vs.len() >= 1,
        forall|i: int| 0 <= i < vs.len() ==> (#[trigger] vs[i]).date_published.wf(),
    ensures
        parse_inner(inner_json_of(vs) + seq![']']) == Some(vs),
    decreases vs.len(),
{
    let s = inner_json_of(vs) + seq![']'];
    if vs.len() == 1 {
        assert(s =~= item_json_of(vs[0]) + seq![']']);
        lemma_parse_item_render(vs[0], seq![']']);
        assert(seq![vs[0]] =~= vs);
    } else {
        let tail = vs.skip(1);
        let rest = seq![','] + (inner_json_of(tail) + seq![']']);
        assert(s =~= item_json_of(vs[0]) + rest);
        lemma_parse_item_render(vs[0], rest);
        lemma_item_json_len(vs[0]);
        lemma_inner_len(tail);
        assert(rest[0] == ',');
        assert(rest.len() >= 2);
        assert(rest.len() < s.len());
        assert(rest.skip(1) =~= inner_json_of(tail) + seq![']']);
        assert(forall|i: int| 0 <= i < tail.len() ==> (#[trigger] tail[i]).date_published.wf())
            by {
            assert(forall|i: int| 0 <= i < tail.len() ==> tail[i] == vs[i + 1]);
        }
        lemma_parse_inner_render(tail);
        assert(seq![vs[0]] + tail =~= vs);
    }
}

/// Writing records as JSON and reading the text back yields the same records,
/// field for field, the timestamp and its offset included.
pub proof fn lemma_json_round_trip(vs: Seq<ItemV>)
    requires
        forall|i: int| 0 <= i < vs.len() ==> (#[trigger] vs[i]).date_published.wf(),
    ensures
        parse_items(items_json_of(vs)) == Some(vs),
{
    reveal_strlit("[]");
    if vs.len() == 0 {
        let s = "[]"@;
        assert(s.len() == 2 && s[0] == '[' && s[1] == ']');
        assert(vs =~= Seq::<ItemV>::empty());
    } else {
        let s = seq!['['] + inner_json_of(vs) + seq![']'];
        lemma_inner_len(vs);
        assert(s[0] == '[');
        assert(s.len() >= 3);
        assert(s.skip(1) =~= inner_json_of(vs) + seq![']']);
        lemma_parse_inner_render(vs);
    }
}

/// Pushing a record before reading the rest commutes with prefixing it after.
proof fn lemma_prepend_items_snoc(items: Seq<Item>, item: Item, x: Option<Seq<ItemV>>)
    ensures
        prepend_items(items.map_values(|it: Item| it@), prepend_items(seq![item@], x))
            == prepend_items(items.push(item).map_values(|it: Item| it@), x),
{
    match x {
        None => {},
        Some(t) => {
            assert(items.map_values(|it: Item| it@) + (seq![item@] + t) =~= items.push(
                item,
            ).map_values(|it: Item| it@) + t);
        },
    }
}

} // verus!
