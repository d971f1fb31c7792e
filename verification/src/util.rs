//! Small helpers.

use vstd::prelude::*;
use crate::text::{chars_of, trim, trimmed};

verus! {

/// The entries of `source` that occur before among its first `n`, in their
/// order: every occurrence of an entry but its first.
pub open spec fn duplicates_upto(source: Seq<Seq<char>>, n: int) -> Seq<Seq<char>>
    decreases n,
{
    if n <= 0 {
        Seq::empty()
    } else if source.take(n - 1).contains(source[n - 1]) {
        duplicates_upto(source, n - 1).push(source[n - 1])
    } else {
        duplicates_upto(source, n - 1)
    }
}

/// All occurrences of each entry after its first.
pub fn find_duplicates(source: &Vec<String>) -> (r: Vec<String>)
    ensures
        r.deep_view() == duplicates_upto(source.deep_view(), source.len() as int),
{
    let ghost all = source.deep_view();
    let mut seen: crate::sorted_map::SortedMap<bool> = crate::sorted_map::SortedMap::new();
    let mut out: Vec<String> = Vec::new();
    let mut i: usize = 0;
    assert(out.deep_view() =~= duplicates_upto(all, 0));
    assert(seen@.dom() =~= all.take(0).to_set());
    while i < source.len()
        invariant
            i <= source.len(),
            all == source.deep_view(),
            seen.wf(),
            seen@.dom() == all.take(i as int).to_set(),
            out.deep_view() == duplicates_upto(all, i as int),
        decreases source.len() - i,
    {
        assert(all[i as int] == source[i as int]@);
        let ghost before = out.deep_view();
        let ghost known = seen@.dom();
        if seen.contains_key(source[i].as_str()) {
            out.push(source[i].clone());
            assert(out.deep_view() =~= before.push(all[i as int]));
        } else {
            seen.insert(source[i].clone(), true);
        }
        proof {
            assert(all.take(i as int).contains(all[i as int]) == known.contains(all[i as int]));
            assert(all.take(i + 1) =~= all.take(i as int).push(all[i as int]));
            assert(seen@.dom() =~= all.take(i + 1).to_set()) by {
                assert forall|k: Seq<char>| all.take(i + 1).to_set().contains(k) <==> known.insert(
                    all[i as int],
                ).contains(k) by {
                    if all.take(i + 1).contains(k) {
                        let x = all.take(i + 1).index_of(k);
                        if x < i {
                            assert(all.take(i as int)[x] == k);
                        }
                    }
                    if all.take(i as int).contains(k) {
                        let x = all.take(i as int).index_of(k);
                        assert(all.take(i + 1)[x] == k);
                    }
                    if k == all[i as int] {
                        assert(all.take(i + 1)[i as int] == k);
                    }
                }
            }
        }
        i = i + 1;
    }
    out
}

/// Whether a character is an ASCII hexadecimal digit.
pub open spec fn is_hex_digit(c: char) -> bool {
    ('0' <= c && c <= '9') || ('a' <= c && c <= 'f') || ('A' <= c && c <= 'F')
}

/// Whether a text is the hash of a git commit: 40 hexadecimal digits.
pub open spec fn is_commit_hash(text: Seq<char>) -> bool {
    text.len() == 40 && forall|i: int| 0 <= i < text.len() ==> is_hex_digit(#[trigger] text[i])
}

/// A text that is known to be the hash of a git commit, in lower case.
#[derive(Debug, PartialEq, Eq, Hash)]
pub struct CommitHash(String);

impl View for CommitHash {
    type V = Seq<char>;

    closed spec fn view(&self) -> Seq<char> {
        self.0@
    }
}

impl CommitHash {
    /// Takes a text that was trimmed and put in lower case: it is a commit
    /// hash if it is made of 40 hexadecimal digits.
    pub fn from_normalized(normalized: String) -> (r: Option<CommitHash>)
        ensures
            r is Some <==> is_commit_hash(normalized@),
            r matches Some(hash) ==> hash@ == normalized@,
    {
        let v = chars_of(normalized.as_str());
        if v.len() != 40 {
            return None;
        }
        let mut i: usize = 0;
        while i < v.len()
            invariant
                i <= v.len(),
                v@ == normalized@,
                v.len() == 40,
                forall|j: int| 0 <= j < i ==> is_hex_digit(#[trigger] v@[j]),
            decreases v.len() - i,
        {
            let c = v[i];
            if !(('0' <= c && c <= '9') || ('a' <= c && c <= 'f') || ('A' <= c && c <= 'F')) {
                return None;
            }
            i = i + 1;
        }
        Some(CommitHash(normalized))
    }

    /// Reads a commit hash: the text without the white space around it and
    /// in lower case, if that is made of 40 hexadecimal digits.
    pub fn parse(input: &str) -> (r: Option<CommitHash>)
        ensures
            r is Some <==> is_commit_hash(crate::bindings::lowercase_of(trimmed(input@))),
            r matches Some(hash) ==> hash@ == crate::bindings::lowercase_of(trimmed(input@)),
    {
        let normalized = crate::bindings::to_lowercase(trim(input).as_str());
        Self::from_normalized(normalized)
    }

    /// The hash as text.
    pub fn as_ref(&self) -> (r: &str)
        ensures
            r@ == self@,
    {
        self.0.as_str()
    }

    /// The hash as a string of its own.
    pub fn to_string(&self) -> (r: String)
        ensures
            r@ == self@,
    {
        self.0.clone()
    }
}

} // verus!
