use vstd::prelude::*;
use vstd::string::*;

use crate::text::{split, split_on, views};

verus! {

/// The extra arguments in a space-separated string: none for an empty string,
/// else the pieces between single spaces.
pub open spec fn extra_args(s: Seq<char>) -> Seq<Seq<char>> {
    if s.len() == 0 {
        Seq::empty()
    } else {
        split_on(s, ' ')
    }
}

/// The extra arguments if any were given, else `fallback`.
pub open spec fn or_default(others: Seq<Seq<char>>, fallback: Seq<Seq<char>>) -> Seq<Seq<char>> {
    if others.len() == 0 {
        fallback
    } else {
        others
    }
}

/// The arguments of the version-control call that commits with message `msg`:
/// `commit -m <msg>`, then the extra arguments, or `-a` (stage all tracked
/// changes) where there are none.
pub open spec fn commit_call(msg: Seq<char>, others: Seq<Seq<char>>) -> Seq<Seq<char>> {
    seq![seq!['c', 'o', 'm', 'm', 'i', 't'], seq!['-', 'm'], msg] + or_default(
        others,
        seq![seq!['-', 'a']],
    )
}

/// The arguments of the version-control call that pushes: `push`, then the
/// extra arguments, or `origin main` where there are none.
pub open spec fn push_call(others: Seq<Seq<char>>) -> Seq<Seq<char>> {
    seq![seq!['p', 'u', 's', 'h']] + or_default(
        others,
        seq![seq!['o', 'r', 'i', 'g', 'i', 'n'], seq!['m', 'a', 'i', 'n']],
    )
}

/// The arguments of the version-control call that pushes all tags.
pub open spec fn tags_call() -> Seq<Seq<char>> {
    seq![seq!['p', 'u', 's', 'h'], seq!['-', '-', 't', 'a', 'g']]
}

/// The extra arguments in `other`, a space-separated string.
pub fn split_args(other: &str) -> (r: Vec<String>)
    ensures
        views(r@) == extra_args(other@),
{
    if other.unicode_len() == 0 {
        let r: Vec<String> = Vec::new();
        assert(views(r@) =~= Seq::<Seq<char>>::empty());
        r
    } else {
        split(other, ' ')
    }
}

/// The arguments that follow the fixed ones: `others`, or `fallback` where
/// `others` is empty.
fn tail_args(others: Vec<String>, fallback: Vec<String>) -> (r: Vec<String>)
    ensures
        views(r@) == or_default(views(others@), views(fallback@)),
{
    if others.len() == 0 {
        fallback
    } else {
        others
    }
}

/// The one-element list holding `s`.
fn single(s: &str) -> (r: Vec<String>)
    ensures
        views(r@) == seq![s@],
{
    let mut r: Vec<String> = Vec::new();
    r.push(String::from_str(s));
    assert(views(r@) =~= seq![s@]);
    r
}

/// The list holding `a` then `b`.
fn pair(a: &str, b: &str) -> (r: Vec<String>)
    ensures
        views(r@) == seq![a@, b@],
{
    let mut r: Vec<String> = Vec::new();
    r.push(String::from_str(a));
    r.push(String::from_str(b));
    assert(views(r@) =~= seq![a@, b@]);
    r
}

/// `head` followed by `tail`.
fn joined(head: Vec<String>, tail: Vec<String>) -> (r: Vec<String>)
    ensures
        views(r@) == views(head@) + views(tail@),
{
    let ghost t = tail@;
    let mut r = head;
    let mut tail = tail;
    r.append(&mut tail);
    assert(views(r@) =~= views(head@) + views(t));
    r
}

/// The arguments that commit with message `msg` and the extra arguments
/// `others`; `-a` stands in for the extra arguments where there are none.
pub fn commit_args(msg: &str, others: Vec<String>) -> (r: Vec<String>)
    ensures
        views(r@) == commit_call(msg@, views(others@)),
{
    proof {
        reveal_strlit("commit");
        reveal_strlit("-m");
        reveal_strlit("-a");
        assert("commit"@ =~= seq!['c', 'o', 'm', 'm', 'i', 't']);
        assert("-m"@ =~= seq!['-', 'm']);
        assert("-a"@ =~= seq!['-', 'a']);
    }
    let mut head = pair("commit", "-m");
    let ghost h = views(head@);
    head.push(String::from_str(msg));
    assert(views(head@) =~= h.push(msg@));
    let r = joined(head, tail_args(others, single("-a")));
    assert(views(r@) =~= commit_call(msg@, views(others@)));
    r
}

/// The arguments that push with the extra arguments `others`; `origin main`
/// stands in for them where there are none.
pub fn push_args(others: Vec<String>) -> (r: Vec<String>)
    ensures
        views(r@) == push_call(views(others@)),
{
    proof {
        reveal_strlit("push");
        reveal_strlit("origin");
        reveal_strlit("main");
        assert("push"@ =~= seq!['p', 'u', 's', 'h']);
        assert("origin"@ =~= seq!['o', 'r', 'i', 'g', 'i', 'n']);
        assert("main"@ =~= seq!['m', 'a', 'i', 'n']);
    }
    let r = joined(single("push"), tail_args(others, pair("origin", "main")));
    assert(views(r@) =~= push_call(views(others@)));
    r
}

/// The arguments that push all tags.
pub fn tags_args() -> (r: Vec<String>)
    ensures
        views(r@) == tags_call(),
{
    proof {
        reveal_strlit("push");
        reveal_strlit("--tag");
        assert("push"@ =~= seq!['p', 'u', 's', 'h']);
        assert("--tag"@ =~= seq!['-', '-', 't', 'a', 'g']);
    }
    let r = pair("push", "--tag");
    assert(views(r@) =~= tags_call());
    r
}

} // verus!
