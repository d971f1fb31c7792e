//! What is said to the build tool, and how a file is shown with its line numbers.

use vstd::prelude::*;
use vstd::string::StringExecFns;
use crate::render::{escape_nix_string, escaped};
use crate::text::{decimal, decimal_of, pad_left, padded_left};

verus! {

/// The first `n` features as nix strings, with blanks between them.
pub open spec fn features_upto(features: Seq<Seq<char>>, n: int) -> Seq<char>
    decreases n,
{
    if n <= 0 {
        Seq::empty()
    } else if n == 1 {
        escaped(features[0])
    } else {
        features_upto(features, n - 1) + " "@ + escaped(features[n - 1])
    }
}

/// The nix list of the given features.
pub open spec fn feature_list(features: Seq<Seq<char>>) -> Seq<char> {
    "[ "@ + features_upto(features, features.len() as int) + " ]"@
}

/// The arguments with which the build tool builds the attribute
/// `nix_attr` of the build file with the given root features.
pub open spec fn build_arguments(nix_attr: Seq<char>, features: Seq<Seq<char>>) -> Seq<Seq<char>> {
    seq![
        "--show-trace"@,
        "build"@,
        "-f"@,
        "default.nix"@,
        nix_attr,
        "--arg"@,
        "rootFeatures"@,
        feature_list(features),
    ]
}

/// The arguments for the build tool.
pub fn nix_build(nix_attr: &str, features: &Vec<String>) -> (r: Vec<String>)
    ensures
        r.deep_view() == build_arguments(nix_attr@, features.deep_view()),
{
    let ghost all = features.deep_view();
    let mut list = String::from_str("[ ");
    let ghost mut inner: Seq<char> = Seq::empty();
    let mut i: usize = 0;
    assert("[ "@ + Seq::<char>::empty() =~= "[ "@);
    while i < features.len()
        invariant
            i <= features.len(),
            all == features.deep_view(),
            inner == features_upto(all, i as int),
            list@ == "[ "@ + inner,
        decreases features.len() - i,
    {
        assert(all[i as int] == features[i as int]@);
        if i > 0 {
            list.append(" ");
        }
        list.append(escape_nix_string(features[i].as_str()).as_str());
        proof {
            inner = features_upto(all, i + 1);
            assert(list@ =~= "[ "@ + inner);
        }
        i = i + 1;
    }
    list.append(" ]");
    let mut args: Vec<String> = Vec::new();
    args.push(String::from_str("--show-trace"));
    args.push(String::from_str("build"));
    args.push(String::from_str("-f"));
    args.push(String::from_str("default.nix"));
    args.push(String::from_str(nix_attr));
    args.push(String::from_str("--arg"));
    args.push(String::from_str("rootFeatures"));
    args.push(list);
    assert(args.deep_view() =~= build_arguments(nix_attr@, all));
    args
}

/// A line of a file behind its number, which is set to the right in five columns.
pub open spec fn numbered_line(number: nat, line: Seq<char>) -> Seq<char> {
    padded_left(decimal(number), 5) + ": "@ + line
}

/// A line of a file behind its number: how `dump_with_lines` shows it.
pub fn dump_with_lines(number: usize, line: &str) -> (r: String)
    ensures
        r@ == numbered_line(number as nat, line@),
{
    let mut r = pad_left(decimal_of(number).as_str(), 5);
    r.append(": ");
    r.append(line);
    r
}

} // verus!
