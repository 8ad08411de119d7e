//! The substring operation on fragment sequences.
//!
//! A substring of an [`ANSIStrings`] sequence is indexed on the positions
//! within the texts alone, never counting the escape codes, so a cut can
//! never fall inside an escape sequence, and the leading and trailing
//! fragments keep their styles even when they are sliced.
//!
//! Positions here count characters.  An out-of-bounds `start` yields an
//! empty result; an out-of-bounds `end` behaves as if it were unbounded, so
//! `usize::MAX` stands in for an unbounded range end.

use vstd::prelude::*;

use crate::display::cap;
use crate::display::concat_texts;
use crate::display::frag_views;
use crate::display::ANSIGenericString;
use crate::display::ANSIGenericStrings;
use crate::style::Style;

verus! {

/// The skip phase: drop every fragment that lies wholly before `start`,
/// carrying the positions along.  A fragment is entered — even with an
/// empty remainder — as soon as `start` no longer lies strictly beyond it.
pub open spec fn sub_skip(frags: Seq<(Style, Seq<char>)>, start: int, end: int) -> Seq<
    (Style, Seq<char>),
>
    decreases frags.len(),
{
    if frags.len() == 0 {
        Seq::<(Style, Seq<char>)>::empty()
    } else if start > 0 && start >= frags[0].1.len() {
        sub_skip(frags.drop_first(), start - frags[0].1.len(), end - frags[0].1.len())
    } else {
        sub_emit(frags, start, end)
    }
}

/// The emit phase: slice the current fragment from `start` up to `end` or
/// its own length, whichever comes first, and go on until `end` is spent or
/// the fragments run out.
pub open spec fn sub_emit(frags: Seq<(Style, Seq<char>)>, start: int, end: int) -> Seq<
    (Style, Seq<char>),
>
    decreases frags.len(),
{
    if frags.len() == 0 {
        Seq::<(Style, Seq<char>)>::empty()
    } else {
        let len = frags[0].1.len() as int;
        let take = if end < len {
            end
        } else {
            len
        };
        seq![(frags[0].0, frags[0].1.subrange(start, take))] + (if end == take {
            Seq::<(Style, Seq<char>)>::empty()
        } else {
            sub_emit(frags.drop_first(), 0, end - take)
        })
    }
}

/// The fragments of the substring from position `start` (inclusive) to
/// `end` (exclusive) of the concatenated texts: empty for an empty or
/// reversed range, otherwise the skip phase followed by the emit phase.
pub open spec fn spec_substring(frags: Seq<(Style, Seq<char>)>, start: int, end: int) -> Seq<
    (Style, Seq<char>),
> {
    if end <= start {
        Seq::<(Style, Seq<char>)>::empty()
    } else {
        sub_skip(frags, start, end)
    }
}

impl<'a> ANSIGenericStrings<&'a str> {
    /// Returns the fragments of a substring, with styles properly applied
    /// to the remaining pieces.
    ///
    /// The substring is indexed on the character positions within the texts,
    /// excluding the ANSI control sequences.  Unlike ordinary string
    /// indexing, this method doesn't panic when `start` or `end` is out of
    /// bounds: an out-of-bounds `start` yields an empty result, and an
    /// out-of-bounds `end` behaves as if the range were unbounded.
    pub fn substring(&self, start: usize, end: usize) -> (r: Vec<ANSIGenericString<&'a str>>)
        ensures
            frag_views(r@) == spec_substring(frag_views(self.0@), start as int, end as int),
    {
        let ghost all = frag_views(self.0@);
        let ghost total = spec_substring(all, start as int, end as int);
        let mut r: Vec<ANSIGenericString<&'a str>> = Vec::new();
        if end <= start {
            proof {
                assert(frag_views(r@) =~= total);
            }
            return r;
        }
        let n = self.0.len();
        let mut idx: usize = 0;
        let mut start_rel: usize = start;
        let mut end_rel: usize = end;
        let mut skipping = true;

        proof {
            assert(all.skip(0) =~= all);
        }
        while skipping && idx < n
            invariant
                idx <= n,
                n == self.0@.len(),
                all == frag_views(self.0@),
                end_rel > start_rel,
                total == sub_skip(all.skip(idx as int), start_rel as int, end_rel as int),
                !skipping ==> idx < n && (start_rel == 0 || (start_rel
                    < self.0@[idx as int].string@.len())),
            decreases n - idx, (if skipping { 1int } else { 0int }),
        {
            proof {
                assert(all[idx as int] == (self.0@[idx as int].style, self.0@[idx as int].string@));
            }
            let len = self.0[idx].string.unicode_len();
            if start_rel > 0 && start_rel >= len {
                proof {
                    assert(all.skip(idx as int)[0] == all[idx as int]);
                    assert(all.skip(idx as int).drop_first() =~= all.skip(idx + 1));
                }
                start_rel = start_rel - len;
                end_rel = end_rel - len;
                idx = idx + 1;
            } else {
                skipping = false;
            }
        }
        if skipping {
            // start lies beyond the last fragment: nothing to return.
            proof {
                assert(all.skip(n as int) =~= Seq::<(Style, Seq<char>)>::empty());
                assert(frag_views(r@) =~= total);
            }
            return r;
        }

        let mut done = false;
        while !done && idx < n
            invariant
                idx <= n,
                n == self.0@.len(),
                all == frag_views(self.0@),
                !done ==> end_rel > start_rel,
                !done ==> (start_rel == 0 || (idx < n && start_rel
                    < self.0@[idx as int].string@.len())),
                !done ==> total == frag_views(r@) + sub_emit(
                    all.skip(idx as int),
                    start_rel as int,
                    end_rel as int,
                ),
                done ==> total == frag_views(r@),
            decreases n - idx, (if done { 0int } else { 1int }),
        {
            proof {
                assert(all[idx as int] == (self.0@[idx as int].style, self.0@[idx as int].string@));
                assert(all.skip(idx as int)[0] == all[idx as int]);
                assert(all.skip(idx as int).drop_first() =~= all.skip(idx + 1));
            }
            let len = self.0[idx].string.unicode_len();
            let take = if end_rel < len {
                end_rel
            } else {
                len
            };
            let piece = self.0[idx].string.substring_char(start_rel, take);
            let ghost before = frag_views(r@);
            r.push(ANSIGenericString { style: self.0[idx].style, string: piece });
            proof {
                assert(frag_views(r@) =~= before.push(
                    (self.0@[idx as int].style, self.0@[idx as int].string@.subrange(
                        start_rel as int,
                        take as int,
                    )),
                ));
                assert(before.push(
                    (self.0@[idx as int].style, self.0@[idx as int].string@.subrange(
                        start_rel as int,
                        take as int,
                    )),
                ) =~= before + seq![
                    (self.0@[idx as int].style, self.0@[idx as int].string@.subrange(
                        start_rel as int,
                        take as int,
                    )),
                ]);
            }
            if end_rel == take {
                done = true;
                proof {
                    assert(frag_views(r@) + Seq::<(Style, Seq<char>)>::empty() =~= frag_views(r@));
                    assert(before + (seq![
                        (self.0@[idx as int].style, self.0@[idx as int].string@.subrange(
                            start_rel as int,
                            take as int,
                        )),
                    ] + Seq::<(Style, Seq<char>)>::empty()) =~= frag_views(r@));
                }
            } else {
                proof {
                    assert(before + (seq![
                        (self.0@[idx as int].style, self.0@[idx as int].string@.subrange(
                            start_rel as int,
                            take as int,
                        )),
                    ] + sub_emit(all.skip(idx + 1), 0, end_rel - take)) =~= frag_views(r@)
                        + sub_emit(all.skip(idx + 1), 0, end_rel - take));
                }
                end_rel = end_rel - take;
                start_rel = 0;
                idx = idx + 1;
            }
        }
        proof {
            if !done {
                assert(all.skip(n as int) =~= Seq::<(Style, Seq<char>)>::empty());
                assert(frag_views(r@) + Seq::<(Style, Seq<char>)>::empty() =~= frag_views(r@));
            }
        }
        r
    }
}

// ---- what a substring's texts amount to ----

/// The texts the emit phase returns are one slice of the concatenated
/// texts.
proof fn lemma_emit_texts(frags: Seq<(Style, Seq<char>)>, start: int, end: int)
    requires
        0 <= start,
        start < end,
        frags.len() > 0 ==> start <= frags[0].1.len(),
    ensures
        concat_texts(sub_emit(frags, start, end)) == concat_texts(frags).subrange(
            cap(start, concat_texts(frags).len() as int),
            cap(end, concat_texts(frags).len() as int),
        ),
    decreases frags.len(),
{
    let total = concat_texts(frags);
    let n = total.len() as int;
    if frags.len() == 0 {
        assert(total.subrange(0, 0) =~= Seq::<char>::empty());
    } else {
        let f0 = frags[0].1;
        let len0 = f0.len() as int;
        let rest = frags.drop_first();
        let rest_total = concat_texts(rest);
        assert(total == f0 + rest_total);
        let take = if end < len0 {
            end
        } else {
            len0
        };
        let emitted = seq![(frags[0].0, f0.subrange(start, take))];
        if end == take {
            assert(sub_emit(frags, start, end) == emitted + Seq::<(Style, Seq<char>)>::empty());
            assert(emitted + Seq::<(Style, Seq<char>)>::empty() =~= emitted);
            assert(emitted.drop_first() =~= Seq::<(Style, Seq<char>)>::empty());
            assert(concat_texts(Seq::<(Style, Seq<char>)>::empty()) == Seq::<char>::empty());
            assert(concat_texts(emitted) == emitted[0].1 + Seq::<char>::empty());
            assert(concat_texts(emitted) =~= f0.subrange(start, take));
            assert(total.subrange(cap(start, n), cap(end, n)) =~= f0.subrange(start, take));
        } else {
            let tail = sub_emit(rest, 0, end - take);
            assert(sub_emit(frags, start, end) == emitted + tail);
            assert((emitted + tail)[0] == emitted[0]);
            assert((emitted + tail).drop_first() =~= tail);
            assert(concat_texts(emitted + tail) == f0.subrange(start, take) + concat_texts(tail));
            lemma_emit_texts(rest, 0, end - take);
            assert(cap(end - len0, rest_total.len() as int) == cap(end, n) - len0);
            assert(total.subrange(cap(start, n), cap(end, n)) =~= f0.subrange(start, len0)
                + rest_total.subrange(0, cap(end, n) - len0));
        }
    }
}

/// The texts the skip phase returns are one slice of the concatenated
/// texts.
proof fn lemma_skip_texts(frags: Seq<(Style, Seq<char>)>, start: int, end: int)
    requires
        0 <= start,
        start < end,
    ensures
        concat_texts(sub_skip(frags, start, end)) == concat_texts(frags).subrange(
            cap(start, concat_texts(frags).len() as int),
            cap(end, concat_texts(frags).len() as int),
        ),
    decreases frags.len(),
{
    let total = concat_texts(frags);
    let n = total.len() as int;
    if frags.len() == 0 {
        assert(total.subrange(0, 0) =~= Seq::<char>::empty());
    } else {
        let f0 = frags[0].1;
        let len0 = f0.len() as int;
        let rest = frags.drop_first();
        let rest_total = concat_texts(rest);
        assert(total == f0 + rest_total);
        if start > 0 && start >= len0 {
            lemma_skip_texts(rest, start - len0, end - len0);
            assert(cap(start - len0, rest_total.len() as int) == cap(start, n) - len0);
            assert(cap(end - len0, rest_total.len() as int) == cap(end, n) - len0);
            assert(total.subrange(cap(start, n), cap(end, n)) =~= rest_total.subrange(
                cap(start, n) - len0,
                cap(end, n) - len0,
            ));
        } else {
            lemma_emit_texts(frags, start, end);
        }
    }
}

/// Taking a substring never invents, drops or reorders a character: the
/// concatenated texts of `spec_substring(frags, start, end)` are exactly
/// the slice of the concatenated texts of `frags` between `start` and
/// `end`, each capped at the total length.
pub proof fn lemma_substring_texts(frags: Seq<(Style, Seq<char>)>, start: int, end: int)
    requires
        0 <= start,
    ensures
        ({
            let total = concat_texts(frags);
            let lo = cap(start, total.len() as int);
            let hi = if end <= start {
                lo
            } else {
                cap(end, total.len() as int)
            };
            concat_texts(spec_substring(frags, start, end)) == total.subrange(lo, hi)
        }),
{
    let total = concat_texts(frags);
    let lo = cap(start, total.len() as int);
    if end <= start {
        assert(total.subrange(lo, lo) =~= Seq::<char>::empty());
    } else {
        lemma_skip_texts(frags, start, end);
    }
}

} // verus!
