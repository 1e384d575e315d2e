//! The hash functions that the SQLite hashing extension offers for tiles.
use crate::errors::UtilesError;
use vstd::prelude::*;
use vstd::std_specs::iter::IteratorSpec;
use vstd::string::StringExecFns;

verus! {

broadcast use vstd::string::group_string_axioms;

/// A hash function of the SQLite hashing extension.
#[derive(Debug, Clone, Copy, PartialEq, Eq, Structural)]
pub enum HashType {
    Md5,
    Fnv1a,
    Xxh32,
    Xxh64,
    Xxh3_64,
    Xxh3_128,
}

/// The function's name: `md5`, `fnv1a`, `xxh32`, `xxh64`, `xxh3_64` or `xxh3_128`.
pub open spec fn hash_name(h: HashType) -> Seq<char> {
    match h {
        HashType::Md5 => seq!['m', 'd', '5'],
        HashType::Fnv1a => seq!['f', 'n', 'v', '1', 'a'],
        HashType::Xxh32 => seq!['x', 'x', 'h', '3', '2'],
        HashType::Xxh64 => seq!['x', 'x', 'h', '6', '4'],
        HashType::Xxh3_64 => seq!['x', 'x', 'h', '3', '_', '6', '4'],
        HashType::Xxh3_128 => seq!['x', 'x', 'h', '3', '_', '1', '2', '8'],
    }
}

/// The digest length in bytes.
pub open spec fn digest_bytes(h: HashType) -> nat {
    match h {
        HashType::Xxh32 => 4,
        HashType::Md5 | HashType::Xxh3_128 => 16,
        HashType::Fnv1a | HashType::Xxh64 | HashType::Xxh3_64 => 8,
    }
}

/// `c` with ASCII upper-case letters turned to lower case.
pub open spec fn ascii_lower(c: char) -> char {
    if 'A' <= c && c <= 'Z' {
        ((c as u32) + 32) as char
    } else {
        c
    }
}

/// `s` with ASCII upper-case letters turned to lower case.
pub open spec fn ascii_lower_seq(s: Seq<char>) -> Seq<char> {
    Seq::new(s.len(), |i: int| ascii_lower(s[i]))
}

/// The hash type that a lower-case name stands for; `fnv1a64` is another
/// name of `fnv1a`.
pub open spec fn hash_type_named(name: Seq<char>) -> Option<HashType> {
    if name == hash_name(HashType::Md5) {
        Some(HashType::Md5)
    } else if name == hash_name(HashType::Fnv1a) || name == seq!['f', 'n', 'v', '1', 'a', '6', '4'] {
        Some(HashType::Fnv1a)
    } else if name == hash_name(HashType::Xxh32) {
        Some(HashType::Xxh32)
    } else if name == hash_name(HashType::Xxh64) {
        Some(HashType::Xxh64)
    } else if name == hash_name(HashType::Xxh3_64) {
        Some(HashType::Xxh3_64)
    } else if name == hash_name(HashType::Xxh3_128) {
        Some(HashType::Xxh3_128)
    } else {
        None
    }
}

fn lower_char(c: char) -> (r: char)
    ensures
        r == ascii_lower(c),
{
    if 'A' <= c && c <= 'Z' {
        let b: u8 = ((c as u32) + 32) as u8;
        b as char
    } else {
        c
    }
}

/// The characters of `s`, ASCII-lower-cased.
fn lower_chars(s: &str) -> (r: Vec<char>)
    ensures
        r@ == ascii_lower_seq(s@),
{
    let ghost t = s@;
    let mut out: Vec<char> = Vec::new();
    let mut it = s.chars();
    proof {
        vstd::string::axiom_spec_iter(s);
    }
    loop
        invariant
            t == s@,
            out@.len() <= t.len(),
            it.remaining() == t.skip(out@.len() as int),
            out@ == ascii_lower_seq(t.take(out@.len() as int)),
        ensures
            out@ == ascii_lower_seq(t),
        decreases t.len() - out@.len(),
    {
        let ghost n = out@.len() as int;
        match it.next() {
            None => {
                assert(t.skip(n).len() == 0);
                assert(t.take(n) =~= t);
                break;
            },
            Some(c) => {
                assert(c == t[n]);
                let l = lower_char(c);
                out.push(l);
                assert(it.remaining() =~= t.skip(n + 1));
                assert(out@ =~= ascii_lower_seq(t.take(n + 1)));
            },
        }
    }
    out
}

/// Whether the two character vectors hold the same characters.
fn same_chars(a: &Vec<char>, b: &Vec<char>) -> (r: bool)
    ensures
        r == (a@ == b@),
{
    if a.len() != b.len() {
        return false;
    }
    let mut i: usize = 0;
    while i < a.len()
        invariant
            a@.len() == b@.len(),
            i <= a@.len(),
            forall|k: int| 0 <= k < i ==> a@[k] == b@[k],
        decreases a.len() - i,
    {
        if a[i] != b[i] {
            return false;
        }
        i = i + 1;
    }
    assert(a@ =~= b@);
    true
}

/// The hash type named by `s`, in any mix of upper and lower case.
pub fn parse_hash_type(s: &str) -> (r: Result<HashType, UtilesError>)
    ensures
        match r {
            Ok(h) => hash_type_named(ascii_lower_seq(s@)) == Some(h),
            Err(e) => hash_type_named(ascii_lower_seq(s@)) is None && (e matches UtilesError::UnknownHashType(m) && m@ == s@),
        },
{
    let l = lower_chars(s);
    if same_chars(&l, &vec!['m', 'd', '5']) {
        Ok(HashType::Md5)
    } else if same_chars(&l, &vec!['f', 'n', 'v', '1', 'a']) || same_chars(
        &l,
        &vec!['f', 'n', 'v', '1', 'a', '6', '4'],
    ) {
        Ok(HashType::Fnv1a)
    } else if same_chars(&l, &vec!['x', 'x', 'h', '3', '2']) {
        Ok(HashType::Xxh32)
    } else if same_chars(&l, &vec!['x', 'x', 'h', '6', '4']) {
        Ok(HashType::Xxh64)
    } else if same_chars(&l, &vec!['x', 'x', 'h', '3', '_', '6', '4']) {
        Ok(HashType::Xxh3_64)
    } else if same_chars(&l, &vec!['x', 'x', 'h', '3', '_', '1', '2', '8']) {
        Ok(HashType::Xxh3_128)
    } else {
        Err(UtilesError::UnknownHashType(String::from_str(s)))
    }
}

impl std::str::FromStr for HashType {
    type Err = UtilesError;

    fn from_str(s: &str) -> (r: Result<Self, Self::Err>)
        ensures
            match r {
                Ok(h) => hash_type_named(ascii_lower_seq(s@)) == Some(h),
                Err(e) => hash_type_named(ascii_lower_seq(s@)) is None && (e matches UtilesError::UnknownHashType(m) && m@ == s@),
            },
    {
        parse_hash_type(s)
    }
}

impl HashType {
    /// The name of the SQLite function that computes this hash.
    pub fn sqlite_fn_name(&self) -> (r: &'static str)
        ensures
            r@ == hash_name(*self),
    {
        match self {
            HashType::Md5 => {
                proof { reveal_strlit("md5"); }
                "md5"
            },
            HashType::Fnv1a => {
                proof { reveal_strlit("fnv1a"); }
                "fnv1a"
            },
            HashType::Xxh32 => {
                proof { reveal_strlit("xxh32"); }
                "xxh32"
            },
            HashType::Xxh64 => {
                proof { reveal_strlit("xxh64"); }
                "xxh64"
            },
            HashType::Xxh3_64 => {
                proof { reveal_strlit("xxh3_64"); }
                "xxh3_64"
            },
            HashType::Xxh3_128 => {
                proof { reveal_strlit("xxh3_128"); }
                "xxh3_128"
            },
        }
    }

    /// The name of the SQLite function that computes this hash as hex text.
    pub fn sqlite_hex_fn_name(&self) -> (r: &'static str)
        ensures
            r@ == hash_name(*self) + seq!['_', 'h', 'e', 'x'],
    {
        match self {
            HashType::Md5 => {
                proof { reveal_strlit("md5_hex"); }
                "md5_hex"
            },
            HashType::Fnv1a => {
                proof { reveal_strlit("fnv1a_hex"); }
                "fnv1a_hex"
            },
            HashType::Xxh32 => {
                proof { reveal_strlit("xxh32_hex"); }
                "xxh32_hex"
            },
            HashType::Xxh64 => {
                proof { reveal_strlit("xxh64_hex"); }
                "xxh64_hex"
            },
            HashType::Xxh3_64 => {
                proof { reveal_strlit("xxh3_64_hex"); }
                "xxh3_64_hex"
            },
            HashType::Xxh3_128 => {
                proof { reveal_strlit("xxh3_128_hex"); }
                "xxh3_128_hex"
            },
        }
    }

    /// The digest length in bytes.
    pub fn digest_size(&self) -> (r: usize)
        ensures
            r == digest_bytes(*self),
    {
        match self {
            HashType::Xxh32 => 4,
            HashType::Md5 | HashType::Xxh3_128 => 16,
            HashType::Fnv1a | HashType::Xxh64 | HashType::Xxh3_64 => 8,
        }
    }

    /// The hash type's name, as text.
    pub fn to_string(&self) -> (r: String)
        ensures
            r@ == hash_name(*self),
    {
        String::from_str(self.sqlite_fn_name())
    }
}

/// Parsing a hash type's own name gives it back, whatever the case of its
/// letters.
pub proof fn lemma_hash_name_roundtrip(h: HashType)
    ensures
        hash_type_named(ascii_lower_seq(hash_name(h))) == Some(h),
{
    assert(ascii_lower_seq(hash_name(h)) =~= hash_name(h));
}

/// Head of the query that folds every tile row into one hash.
pub const AGG_HASH_HEAD: &'static str = "SELECT coalesce(\n            ";

/// Middle part of the query, between the hash's concat function and its
/// plain hex function.
pub const AGG_HASH_MID: &'static str =
    "_concat_hex(\n                cast(zoom_level AS text),\n                cast(tile_column AS text),\n                cast(tile_row AS text),\n                tile_data\n                ORDER BY zoom_level, tile_column, tile_row),\n            ";

/// Tail of the query.
pub const AGG_HASH_TAIL: &'static str = "_hex(''))\n        FROM tiles";

/// The query that hashes all tile rows, ordered by zoom, column and row,
/// with `hash`; an empty table hashes as the empty string.
pub fn mbt_agg_tile_hash_query(hash: HashType) -> (r: String)
    ensures
        r@ == AGG_HASH_HEAD@ + hash_name(hash) + AGG_HASH_MID@ + hash_name(hash)
            + AGG_HASH_TAIL@,
{
    let name = hash.sqlite_fn_name();
    let mut sql = String::from_str(AGG_HASH_HEAD);
    sql.append(name);
    sql.append(AGG_HASH_MID);
    sql.append(name);
    sql.append(AGG_HASH_TAIL);
    sql
}

} // verus!
