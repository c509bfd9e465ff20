//! Command descriptors and the splitting of command paths into segments.
//!
//! A command path is a colon-delimited hierarchical identifier such as
//! `File:New`: every segment but the last names a submenu, the last names the
//! menu leaf that triggers the command.

use vstd::prelude::*;

verus! {

/// A command descriptor: a non-empty colon-delimited path plus an optional
/// accelerator keycode. When the menu is materialized the keycode is always
/// combined with the platform's primary modifier.
#[derive(Clone, Debug)]
pub struct CommandInfo {
    pub path: String,
    pub key: Option<u32>,
}

/// The mathematical content of a command descriptor.
#[verifier::ext_equal]
pub ghost struct SpecCommand {
    pub path: Seq<char>,
    pub key: Option<u32>,
}

impl View for CommandInfo {
    type V = SpecCommand;

    open spec fn view(&self) -> SpecCommand {
        SpecCommand { path: self.path@, key: self.key }
    }
}

/// Splitting a path on the segment delimiter `:`. This matches the usual
/// string splitting: the result always has at least one segment, an empty
/// path yields one empty segment, and a trailing delimiter yields a trailing
/// empty segment.
pub open spec fn split_path(s: Seq<char>) -> Seq<Seq<char>>
    decreases s.len(),
{
    if s.len() == 0 {
        seq![Seq::<char>::empty()]
    } else if s[0] == ':' {
        seq![Seq::<char>::empty()] + split_path(s.drop_first())
    } else {
        let rest = split_path(s.drop_first());
        seq![seq![s[0]] + rest[0]] + rest.drop_first()
    }
}

/// Splitting yields at least one segment.
pub proof fn lemma_split_path_len(s: Seq<char>)
    ensures
        split_path(s).len() >= 1,
    decreases s.len(),
{
    if s.len() != 0 {
        lemma_split_path_len(s.drop_first());
    }
}

/// If `s` has no delimiter before position `k` and a delimiter at `k`, the
/// split is the prefix before `k` followed by the split of what comes after.
proof fn lemma_split_path_at(s: Seq<char>, k: int)
    requires
        0 <= k < s.len(),
        s[k] == ':',
        forall|j: int| 0 <= j < k ==> s[j] != ':',
    ensures
        split_path(s) =~= seq![s.take(k)] + split_path(s.skip(k + 1)),
    decreases k,
{
    lemma_split_path_len(s.skip(k + 1));
    if k == 0 {
        assert(s.drop_first() =~= s.skip(1));
        assert(s.take(0) =~= Seq::<char>::empty());
    } else {
        let t = s.drop_first();
        assert(t[k - 1] == ':');
        assert(forall|j: int| 0 <= j < k - 1 ==> t[j] != ':');
        lemma_split_path_at(t, k - 1);
        assert(t.take(k - 1) =~= s.take(k).drop_first());
        assert(t.skip(k) =~= s.skip(k + 1));
        let rest = split_path(t);
        assert(rest[0] == t.take(k - 1));
        assert(seq![s[0]] + rest[0] =~= s.take(k));
        assert(rest.drop_first() =~= split_path(s.skip(k + 1)));
    }
}

/// If `s` has no delimiter at all, it is a single segment.
proof fn lemma_split_path_none(s: Seq<char>)
    requires
        forall|j: int| 0 <= j < s.len() ==> s[j] != ':',
    ensures
        split_path(s) =~= seq![s],
    decreases s.len(),
{
    if s.len() == 0 {
        assert(s =~= Seq::<char>::empty());
    } else {
        lemma_split_path_none(s.drop_first());
        let rest = split_path(s.drop_first());
        assert(seq![s[0]] + rest[0] =~= s);
    }
}

/// Split a command path into its segments, in order.
pub fn split_segments(path: &str) -> (segs: Vec<String>)
    ensures
        segs.deep_view() =~= split_path(path@),
        segs.deep_view().len() >= 1,
{
    let n = path.unicode_len();
    let mut segs: Vec<String> = Vec::new();
    let mut start: usize = 0;
    let mut i: usize = 0;
    proof {
        assert(segs.deep_view() =~= Seq::<Seq<char>>::empty());
        assert(path@.skip(0) =~= path@);
    }
    while i < n
        invariant
            n == path@.len(),
            start <= i <= n,
            forall|j: int| start <= j < i ==> path@[j] != ':',
            split_path(path@) =~= segs.deep_view() + split_path(path@.skip(start as int)),
        decreases n - i,
    {
        let c = path.get_char(i);
        if c == ':' {
            let seg = path.substring_char(start, i).to_owned();
            proof {
                let tail = path@.skip(start as int);
                assert(tail[i - start] == ':');
                assert(forall|j: int| 0 <= j < i - start ==> tail[j] != ':');
                lemma_split_path_at(tail, i - start);
                assert(tail.take(i - start) =~= path@.subrange(start as int, i as int));
                assert(tail.skip(i - start + 1) =~= path@.skip(i + 1));
            }
            let ghost old_segs = segs.deep_view();
            segs.push(seg);
            proof {
                assert(segs.deep_view() =~= old_segs.push(seg@));
                assert(old_segs.push(seg@) + split_path(path@.skip(i + 1)) =~= old_segs + (seq![seg@]
                    + split_path(path@.skip(i + 1))));
            }
            start = i + 1;
        }
        i += 1;
    }
    let last = path.substring_char(start, n).to_owned();
    proof {
        let tail = path@.skip(start as int);
        assert(forall|j: int| 0 <= j < tail.len() ==> tail[j] != ':');
        lemma_split_path_none(tail);
        assert(tail =~= path@.subrange(start as int, n as int));
    }
    let ghost old_segs = segs.deep_view();
    segs.push(last);
    proof {
        assert(segs.deep_view() =~= old_segs.push(last@));
        assert(old_segs.push(last@) =~= old_segs + seq![last@]);
        lemma_split_path_len(path@);
    }
    segs
}

} // verus!
