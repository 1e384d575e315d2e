//! MBTiles metadata rows, and filling in the zoom range a tileset's
//! metadata should carry.
use crate::decimal::{decimal, decimal_string};
use vstd::prelude::*;
use vstd::std_specs::iter::IteratorSpec;
use vstd::string::StringExecFns;

verus! {

broadcast use vstd::string::group_string_axioms;

/// A `name`/`value` row of an MBTiles metadata table.
#[derive(Debug)]
pub struct MbtMetadataRow {
    pub name: String,
    pub value: String,
}

/// The rows as `(name, value)` texts.
pub open spec fn rows_view(rows: Seq<MbtMetadataRow>) -> Seq<(Seq<char>, Seq<char>)> {
    Seq::new(rows.len(), |i: int| (rows[i].name@, rows[i].value@))
}

/// The value of the first row named `name`, if any.
pub open spec fn first_value(rows: Seq<(Seq<char>, Seq<char>)>, name: Seq<char>) -> Option<
    Seq<char>,
>
    decreases rows.len(),
{
    if rows.len() == 0 {
        None
    } else if rows[0].0 == name {
        Some(rows[0].1)
    } else {
        first_value(rows.drop_first(), name)
    }
}

/// `c` is an ASCII decimal digit.
pub open spec fn is_digit(c: char) -> bool {
    '0' <= c && c <= '9'
}

/// The number that a string of decimal digits spells.
pub open spec fn digits_value(s: Seq<char>) -> nat
    decreases s.len(),
{
    if s.len() == 0 {
        0
    } else {
        10 * digits_value(s.drop_last()) + ((s.last() as u32) - ('0' as u32)) as nat
    }
}

/// The text without a leading `+` sign, if it has one.
pub open spec fn unsigned_digits(s: Seq<char>) -> Seq<char> {
    if s.len() > 0 && s[0] == '+' {
        s.skip(1)
    } else {
        s
    }
}

/// The `u8` that the text spells as an unsigned decimal integer: an
/// optional `+` and one or more digits, with a value of at most 255.
pub open spec fn parse_u8_spec(s: Seq<char>) -> Option<u8> {
    let t = unsigned_digits(s);
    if t.len() == 0 {
        None
    } else if exists|k: int| 0 <= k < t.len() && !is_digit(#[trigger] t[k]) {
        None
    } else if digits_value(t) > 255 {
        None
    } else {
        Some(digits_value(t) as u8)
    }
}

/// The metadata holds a `minzoom` and a `maxzoom` (the first row of each
/// name counts) whose values both read as `u8`.
pub open spec fn zooms_present(rows: Seq<(Seq<char>, Seq<char>)>) -> bool {
    &&& first_value(rows, "minzoom"@) matches Some(a) && parse_u8_spec(a) is Some
    &&& first_value(rows, "maxzoom"@) matches Some(b) && parse_u8_spec(b) is Some
}

/// The rows after filling in the zoom range: unchanged when the zooms are
/// present or no range is known; else the rows followed by a `minzoom` and a
/// `maxzoom` row with the range's ends in decimal.
pub open spec fn filled_rows(rows: Seq<(Seq<char>, Seq<char>)>, range: Option<(u8, u8)>) -> Seq<
    (Seq<char>, Seq<char>),
> {
    if zooms_present(rows) {
        rows
    } else {
        match range {
            Some((lo, hi)) => rows.push(("minzoom"@, decimal(lo as nat))).push(
                ("maxzoom"@, decimal(hi as nat)),
            ),
            None => rows,
        }
    }
}

/// The text of `s`, as characters.
fn chars_of(s: &str) -> (r: Vec<char>)
    ensures
        r@ == s@,
{
    let ghost t = s@;
    let mut out: Vec<char> = Vec::new();
    let mut it = s.chars();
    proof {
        vstd::string::axiom_spec_iter(s);
    }
    loop
        invariant
            t == s@,
            out@.len() <= t.len(),
            it.remaining() == t.skip(out@.len() as int),
            out@ == t.take(out@.len() as int),
        ensures
            out@ == t,
        decreases t.len() - out@.len(),
    {
        let ghost n = out@.len() as int;
        match it.next() {
            None => {
                assert(t.skip(n).len() == 0);
                assert(t.take(n) =~= t);
                break;
            },
            Some(c) => {
                assert(c == t[n]);
                out.push(c);
                assert(it.remaining() =~= t.skip(n + 1));
                assert(out@ =~= t.take(n + 1));
            },
        }
    }
    out
}

/// The `u8` that `s` spells, as `str::parse::<u8>` reads it: an optional
/// `+` and one or more decimal digits, with a value of at most 255.
pub fn parse_u8(s: &str) -> (r: Option<u8>)
    ensures
        r == parse_u8_spec(s@),
{
    let cs = chars_of(s);
    let ghost t = unsigned_digits(s@);
    let mut i: usize = 0;
    if cs.len() > 0 && cs[0] == '+' {
        i = 1;
    }
    let start = i;
    assert(t == cs@.skip(start as int));
    if start == cs.len() {
        return None;
    }
    let mut acc: u32 = 0;
    while i < cs.len()
        invariant
            start <= i <= cs@.len(),
            t == unsigned_digits(s@),
            t == cs@.skip(start as int),
            forall|k: int| 0 <= k < i - start ==> is_digit(#[trigger] t[k]),
            acc == (if digits_value(t.take(i - start)) > 256 { 256 } else { digits_value(
                t.take(i - start),
            ) }),
        decreases cs.len() - i,
    {
        let c = cs[i];
        assert(c == t[i - start]);
        if !('0' <= c && c <= '9') {
            assert(!is_digit(t[i - start]));
            return None;
        }
        let d: u32 = (c as u32) - ('0' as u32);
        proof {
            assert(t.take(i - start + 1).drop_last() =~= t.take(i - start));
            assert(t.take(i - start + 1).last() == c);
        }
        let next: u32 = acc * 10 + d;
        acc = if next > 256 { 256 } else { next };
        i = i + 1;
    }
    assert(t.take(i - start) =~= t);
    if acc > 255 {
        None
    } else {
        Some(acc as u8)
    }
}

/// The value of the first row named `name`, if any.
fn find_value<'a>(rows: &'a Vec<MbtMetadataRow>, name: &String) -> (r: Option<&'a String>)
    ensures
        match r {
            Some(v) => first_value(rows_view(rows@), name@) == Some(v@),
            None => first_value(rows_view(rows@), name@) is None,
        },
{
    let ghost v = rows_view(rows@);
    let mut i: usize = 0;
    assert(v.skip(0) =~= v);
    while i < rows.len()
        invariant
            i <= rows@.len(),
            v == rows_view(rows@),
            first_value(v, name@) == first_value(v.skip(i as int), name@),
        decreases rows.len() - i,
    {
        let ghost rest = v.skip(i as int);
        assert(rest[0] == v[i as int]);
        assert(rest.drop_first() =~= v.skip(i + 1));
        if rows[i].name == *name {
            return Some(&rows[i].value);
        }
        i = i + 1;
    }
    assert(v.skip(i as int).len() == 0);
    None
}

/// Whether the metadata already holds a `minzoom` and a `maxzoom` that read
/// as zooms; where it does not, the zoom range is to be taken from the tiles.
pub fn metadata_zooms_present(rows: &Vec<MbtMetadataRow>) -> (r: bool)
    ensures
        r == zooms_present(rows_view(rows@)),
{
    let minzoom = String::from_str("minzoom");
    let maxzoom = String::from_str("maxzoom");
    let lo = match find_value(rows, &minzoom) {
        Some(v) => parse_u8(v.as_str()),
        None => None,
    };
    let hi = match find_value(rows, &maxzoom) {
        Some(v) => parse_u8(v.as_str()),
        None => None,
    };
    lo.is_some() && hi.is_some()
}

/// The metadata with the zoom range filled in: where it lacks a `minzoom`
/// or `maxzoom` that reads as a zoom, the range found in the tiles (if any)
/// is added as a `minzoom` and a `maxzoom` row.
pub fn fill_minzoom_maxzoom(rows: Vec<MbtMetadataRow>, range: Option<(u8, u8)>) -> (r: Vec<
    MbtMetadataRow,
>)
    ensures
        rows_view(r@) == filled_rows(rows_view(rows@), range),
{
    let mut rows = rows;
    if metadata_zooms_present(&rows) {
        return rows;
    }
    match range {
        Some((lo, hi)) => {
            let ghost before = rows_view(rows@);
            rows.push(MbtMetadataRow { name: String::from_str("minzoom"), value: decimal_string(lo as u64) });
            rows.push(MbtMetadataRow { name: String::from_str("maxzoom"), value: decimal_string(hi as u64) });
            assert(rows_view(rows@) =~= before.push(("minzoom"@, decimal(lo as nat))).push(
                ("maxzoom"@, decimal(hi as nat)),
            ));
            rows
        },
        None => rows,
    }
}

} // verus!
