//! The annotation on a fenced code block: `language` or `language:title`.

use crate::text::push_char;
use vstd::prelude::*;

verus! {

/// End of the `:`-free stretch of `info` that starts at `from`: the position of
/// the next `:` at or after `from`, or the length of `info` where there is none.
pub open spec fn segment_end(info: Seq<char>, from: int) -> int
    decreases info.len() - from,
{
    if from < 0 || from >= info.len() {
        info.len() as int
    } else if info[from] == ':' {
        from
    } else {
        segment_end(info, from + 1)
    }
}

/// The language id of an info-string: everything before its first `:`.
pub open spec fn language_of(info: Seq<char>) -> Seq<char> {
    info.subrange(0, segment_end(info, 0))
}

/// The title of an info-string: what stands between its first `:` and its
/// second (or its end). An info-string without `:` has no title.
pub open spec fn title_of(info: Seq<char>) -> Option<Seq<char>> {
    let first = segment_end(info, 0);
    if first < info.len() {
        Some(info.subrange(first + 1, segment_end(info, first + 1)))
    } else {
        None
    }
}

/// `segment_end` stays within `info`, skips no `:`, and stops on one or at the end.
pub proof fn lemma_segment_end(info: Seq<char>, from: int)
    requires
        0 <= from <= info.len(),
    ensures
        from <= segment_end(info, from) <= info.len(),
        forall|k: int| from <= k < segment_end(info, from) ==> info[k] != ':',
        segment_end(info, from) < info.len() ==> info[segment_end(info, from)] == ':',
    decreases info.len() - from,
{
    if from < info.len() && info[from] != ':' {
        lemma_segment_end(info, from + 1);
    }
}

/// Neither the language id nor the title holds a `:`, and an info-string
/// without `:` is all language id.
pub proof fn lemma_annotation_segments(info: Seq<char>)
    ensures
        !language_of(info).contains(':'),
        title_of(info) matches Some(title) ==> !title.contains(':'),
        !info.contains(':') ==> language_of(info) == info && title_of(info) is None,
{
    let first = segment_end(info, 0);
    lemma_segment_end(info, 0);
    if first < info.len() {
        lemma_segment_end(info, first + 1);
        assert(info.contains(':'));
    } else {
        assert(language_of(info) =~= info);
    }
}

/// A stretch without `:` does not move the end of the segment it lies in.
proof fn lemma_segment_end_skips(info: Seq<char>, from: int, upto: int)
    requires
        0 <= from <= upto <= info.len(),
        forall|k: int| from <= k < upto ==> info[k] != ':',
    ensures
        segment_end(info, from) == segment_end(info, upto),
    decreases upto - from,
{
    if from < upto {
        lemma_segment_end_skips(info, from + 1, upto);
    }
}

/// Splits an info-string into its language id and its optional title.
pub fn parse_codetitle(s: &str) -> (res: (String, Option<String>))
    ensures
        res.0@ == language_of(s@),
        res.1.deep_view() == title_of(s@),
{
    let mut language = String::new();
    let mut title = String::new();
    let mut colons: u8 = 0;
    proof {
        lemma_segment_end(s@, 0);
    }
    for c in it: s.chars()
        invariant
            it.seq() == s@,
            0 <= segment_end(s@, 0) <= s@.len(),
            colons <= 2,
            colons == 0 ==> {
                &&& language@ == s@.subrange(0, it.index() as int)
                &&& forall|k: int| 0 <= k < it.index() ==> s@[k] != ':'
                &&& title@.len() == 0
            },
            colons >= 1 ==> {
                &&& segment_end(s@, 0) < it.index()
                &&& language@ == language_of(s@)
            },
            colons == 1 ==> {
                &&& title@ == s@.subrange(segment_end(s@, 0) + 1, it.index() as int)
                &&& forall|k: int| segment_end(s@, 0) < k < it.index() ==> s@[k] != ':'
            },
            colons == 2 ==> Some(title@) == title_of(s@),
    {
        let ghost at = it.index() as int;
        if colons == 0 {
            if c == ':' {
                proof {
                    lemma_segment_end_skips(s@, 0, at);
                }
                colons = 1;
            } else {
                push_char(&mut language, c);
                assert(language@ =~= s@.subrange(0, at + 1));
            }
        } else if colons == 1 {
            if c == ':' {
                proof {
                    lemma_segment_end_skips(s@, segment_end(s@, 0) + 1, at);
                }
                colons = 2;
            } else {
                push_char(&mut title, c);
                assert(title@ =~= s@.subrange(segment_end(s@, 0) + 1, at + 1));
            }
        }
    }
    proof {
        let n = s@.len() as int;
        if colons == 0 {
            lemma_segment_end_skips(s@, 0, n);
        } else if colons == 1 {
            lemma_segment_end_skips(s@, segment_end(s@, 0) + 1, n);
        }
    }
    if colons == 0 {
        (language, None)
    } else {
        (language, Some(title))
    }
}

} // verus!
