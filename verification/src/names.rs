//! The naming rule for post files.
//!
//! A post file is named `YYYY-MM-DD-identifier.md`. The identifier of a
//! filename is the text between the leftmost date prefix (four digits, a
//! hyphen, two digits, a hyphen, two digits, a hyphen) and the last `.md`
//! that follows it; a filename without both parts has no identifier.

use vstd::prelude::*;
use crate::errors::WalkError;

verus! {

pub open spec fn is_ascii_digit(c: char) -> bool {
    48 <= c as u32 <= 57
}

/// A date prefix `YYYY-MM-DD-` stands at position `i` of `s`.
pub open spec fn date_prefix_at(s: Seq<char>, i: int) -> bool {
    &&& 0 <= i
    &&& i + 11 <= s.len()
    &&& is_ascii_digit(s[i])
    &&& is_ascii_digit(s[i + 1])
    &&& is_ascii_digit(s[i + 2])
    &&& is_ascii_digit(s[i + 3])
    &&& s[i + 4] == '-'
    &&& is_ascii_digit(s[i + 5])
    &&& is_ascii_digit(s[i + 6])
    &&& s[i + 7] == '-'
    &&& is_ascii_digit(s[i + 8])
    &&& is_ascii_digit(s[i + 9])
    &&& s[i + 10] == '-'
}

/// The closing `.md` stands at position `j` of `s`.
pub open spec fn md_suffix_at(s: Seq<char>, j: int) -> bool {
    &&& 0 <= j
    &&& j + 3 <= s.len()
    &&& s[j] == '.'
    &&& s[j + 1] == 'm'
    &&& s[j + 2] == 'd'
}

/// The filename follows the post naming shape: a date prefix somewhere,
/// with a closing `.md` at or after the end of the prefix.
pub open spec fn follows_naming_shape(s: Seq<char>) -> bool {
    exists|i: int, j: int| date_prefix_at(s, i) && i + 11 <= j && md_suffix_at(s, j)
}

fn exec_digit(c: char) -> (b: bool)
    ensures
        b == is_ascii_digit(c),
{
    let u = c as u32;
    48 <= u && u <= 57
}

fn date_prefix_check(s: &str, i: usize) -> (b: bool)
    requires
        i + 11 <= s@.len() <= usize::MAX,
    ensures
        b == date_prefix_at(s@, i as int),
{
    exec_digit(s.get_char(i)) && exec_digit(s.get_char(i + 1)) && exec_digit(s.get_char(i + 2))
        && exec_digit(s.get_char(i + 3)) && s.get_char(i + 4) == '-' && exec_digit(
        s.get_char(i + 5),
    ) && exec_digit(s.get_char(i + 6)) && s.get_char(i + 7) == '-' && exec_digit(s.get_char(i + 8))
        && exec_digit(s.get_char(i + 9)) && s.get_char(i + 10) == '-'
}

fn md_suffix_check(s: &str, j: usize) -> (b: bool)
    requires
        j + 3 <= s@.len() <= usize::MAX,
    ensures
        b == md_suffix_at(s@, j as int),
{
    s.get_char(j) == '.' && s.get_char(j + 1) == 'm' && s.get_char(j + 2) == 'd'
}

/// The leftmost position carrying a date prefix that leaves room for a
/// closing `.md` behind it.
fn find_prefix(s: &str) -> (r: Option<usize>)
    requires
        s@.len() >= 14,
    ensures
        match r {
            Some(i) => i + 14 <= s@.len() && date_prefix_at(s@, i as int) && (forall|i2: int|
                0 <= i2 < i ==> !date_prefix_at(s@, i2)),
            None => forall|i2: int| 0 <= i2 && i2 + 14 <= s@.len() ==> !date_prefix_at(s@, i2),
        },
{
    let n = s.unicode_len();
    let mut i: usize = 0;
    while i <= n - 14
        invariant
            14 <= n == s@.len(),
            i <= n - 13,
            forall|i2: int| 0 <= i2 < i ==> !date_prefix_at(s@, i2),
        decreases n - i,
    {
        if date_prefix_check(s, i) {
            return Some(i);
        }
        i = i + 1;
    }
    None
}

/// The last position at or after `lo` carrying the closing `.md`.
fn find_last_suffix(s: &str, lo: usize) -> (r: Option<usize>)
    requires
        lo + 3 <= s@.len(),
    ensures
        match r {
            Some(j) => lo <= j && j + 3 <= s@.len() && md_suffix_at(s@, j as int) && (forall|
                j2: int,
            |
                j < j2 && j2 + 3 <= s@.len() ==> !md_suffix_at(s@, j2)),
            None => forall|j2: int| lo <= j2 && j2 + 3 <= s@.len() ==> !md_suffix_at(s@, j2),
        },
{
    let n = s.unicode_len();
    let mut j = n - 3;
    loop
        invariant
            lo + 3 <= n == s@.len(),
            lo <= j <= n - 3,
            forall|j2: int| j < j2 && j2 + 3 <= n ==> !md_suffix_at(s@, j2),
        decreases j,
    {
        if md_suffix_check(s, j) {
            return Some(j);
        }
        if j == lo {
            return None;
        }
        j = j - 1;
    }
}

/// `needle` stands at position `i` of `hay`.
pub open spec fn contains_at(hay: Seq<char>, needle: Seq<char>, i: int) -> bool {
    0 <= i && i + needle.len() <= hay.len() && hay.subrange(i, i + needle.len()) == needle
}

/// `needle` stands somewhere in `hay`.
pub open spec fn contains_text(hay: Seq<char>, needle: Seq<char>) -> bool {
    exists|i: int| contains_at(hay, needle, i)
}

fn match_at(hay: &str, needle: &str, i: usize) -> (r: bool)
    requires
        i + needle@.len() <= hay@.len() <= usize::MAX,
    ensures
        r == contains_at(hay@, needle@, i as int),
{
    let nn = needle.unicode_len();
    let mut k: usize = 0;
    while k < nn
        invariant
            i + nn <= hay@.len() <= usize::MAX,
            nn == needle@.len(),
            k <= nn,
            forall|k2: int| 0 <= k2 < k ==> hay@[i + k2] == needle@[k2],
        decreases nn - k,
    {
        if hay.get_char(i + k) != needle.get_char(k) {
            proof {
                if contains_at(hay@, needle@, i as int) {
                    assert(hay@.subrange(i as int, i + nn as int)[k as int] == needle@[k as int]);
                }
            }
            return false;
        }
        k = k + 1;
    }
    proof {
        assert(hay@.subrange(i as int, i + nn as int) =~= needle@);
    }
    true
}

/// Whether `needle` occurs anywhere in `hay`. The walk uses this on commit
/// messages to honour the timestamp-skip marker.
pub fn text_contains(hay: &str, needle: &str) -> (r: bool)
    ensures
        r == contains_text(hay@, needle@),
{
    let hn = hay.unicode_len();
    let nn = needle.unicode_len();
    if nn > hn {
        return false;
    }
    if nn == 0 {
        proof {
            assert(hay@.subrange(0, 0) =~= needle@);
            assert(contains_at(hay@, needle@, 0));
        }
        return true;
    }
    let mut i: usize = 0;
    while i <= hn - nn
        invariant
            1 <= nn <= hn,
            hn == hay@.len(),
            nn == needle@.len(),
            i <= hn - nn + 1,
            forall|i2: int| 0 <= i2 < i ==> !contains_at(hay@, needle@, i2),
        decreases hn - i,
    {
        if match_at(hay, needle, i) {
            return true;
        }
        i = i + 1;
    }
    false
}

/// The identifier of a post filename: the text between the leftmost date
/// prefix and the last `.md` that stands at or after the end of that
/// prefix. A filename that does not follow the naming shape is rejected.
pub fn file_name_to_id<'a>(filename: &'a str) -> (r: Result<&'a str, WalkError>)
    ensures
        match r {
            Ok(id) => exists|i: int, j: int|
                {
                    &&& date_prefix_at(filename@, i)
                    &&& i + 11 <= j
                    &&& md_suffix_at(filename@, j)
                    &&& forall|i2: int| 0 <= i2 < i ==> !date_prefix_at(filename@, i2)
                    &&& forall|j2: int| j < j2 && j2 + 3 <= filename@.len() ==> !md_suffix_at(
                        filename@,
                        j2,
                    )
                    &&& id@ == filename@.subrange(i + 11, j)
                },
            Err(e) => e is BadFilename && !follows_naming_shape(filename@),
        },
{
    let n = filename.unicode_len();
    if n < 14 {
        proof {
            assert forall|a: int, b: int|
                !(date_prefix_at(filename@, a) && a + 11 <= b && md_suffix_at(filename@, b)) by {
                if date_prefix_at(filename@, a) && a + 11 <= b && md_suffix_at(filename@, b) {
                    assert(b + 3 <= filename@.len());
                }
            }
        }
        return Err(WalkError::BadFilename);
    }
    let i = match find_prefix(filename) {
        None => {
            proof {
                assert forall|a: int, b: int|
                    !(date_prefix_at(filename@, a) && a + 11 <= b && md_suffix_at(
                        filename@,
                        b,
                    )) by {
                    if date_prefix_at(filename@, a) && a + 11 <= b && md_suffix_at(filename@, b) {
                        assert(a + 14 <= filename@.len());
                    }
                }
            }
            return Err(WalkError::BadFilename);
        },
        Some(v) => v,
    };
    let j = match find_last_suffix(filename, i + 11) {
        None => {
            proof {
                assert forall|a: int, b: int|
                    !(date_prefix_at(filename@, a) && a + 11 <= b && md_suffix_at(
                        filename@,
                        b,
                    )) by {
                    if date_prefix_at(filename@, a) && a + 11 <= b && md_suffix_at(filename@, b) {
                        assert(a >= i);
                        assert(b >= i + 11);
                    }
                }
            }
            return Err(WalkError::BadFilename);
        },
        Some(v) => v,
    };
    Ok(filename.substring_char(i + 11, j))
}

} // verus!
