//! Bringing four-backtick fences back to the usual three.

use crate::text::push_char;
use vstd::prelude::*;

verus! {

/// A run of `n` backticks.
pub open spec fn fence(n: nat) -> Seq<char> {
    Seq::new(n, |i: int| '`')
}

/// True when `s` holds `n` backticks in a row from position `i` on.
pub open spec fn fence_at(s: Seq<char>, i: int, n: nat) -> bool {
    &&& 0 <= i
    &&& i + n <= s.len()
    &&& forall|k: int| i <= k < i + n ==> s[k] == '`'
}

/// True when `s` holds `n` backticks in a row somewhere.
pub open spec fn has_fence(s: Seq<char>, n: nat) -> bool {
    exists|i: int| fence_at(s, i, n)
}

/// `s` with each four-backtick sequence replaced by three backticks, reading
/// from the left and resuming behind each sequence replaced.
pub open spec fn collapsed(s: Seq<char>) -> Seq<char>
    decreases s.len(),
{
    if s.len() == 0 {
        s
    } else if fence_at(s, 0, 4) {
        fence(3) + collapsed(s.subrange(4, s.len() as int))
    } else {
        seq![s[0]] + collapsed(s.drop_first())
    }
}

/// Backticks that lead the collapsed text lead the text itself.
proof fn lemma_collapsed_lead(s: Seq<char>, n: nat)
    requires
        fence_at(collapsed(s), 0, n),
    ensures
        fence_at(s, 0, n),
    decreases s.len(),
{
    if s.len() == 0 || n == 0 {
    } else if fence_at(s, 0, 4) {
        let rest = s.subrange(4, s.len() as int);
        let out = collapsed(rest);
        assert(collapsed(s) == fence(3) + out);
        if n > 3 {
            assert forall|k: int| 0 <= k < n - 3 implies out[k] == '`' by {
                assert(collapsed(s)[k + 3] == out[k]);
            }
            lemma_collapsed_lead(rest, (n - 3) as nat);
            assert forall|k: int| 0 <= k < n implies s[k] == '`' by {
                if k >= 4 {
                    assert(rest[k - 4] == s[k]);
                }
            }
        }
    } else {
        let rest = s.drop_first();
        let out = collapsed(rest);
        assert(collapsed(s) == seq![s[0]] + out);
        assert(collapsed(s)[0] == s[0]);
        assert forall|k: int| 0 <= k < n - 1 implies out[k] == '`' by {
            assert(collapsed(s)[k + 1] == out[k]);
        }
        lemma_collapsed_lead(rest, (n - 1) as nat);
        assert forall|k: int| 0 <= k < n implies s[k] == '`' by {
            if k >= 1 {
                assert(rest[k - 1] == s[k]);
            }
        }
    }
}

/// A text free of five backticks in a row stays so when its head is cut off.
proof fn lemma_suffix_has_no_fence(s: Seq<char>, from: int, n: nat)
    requires
        0 <= from <= s.len(),
        !has_fence(s, n),
    ensures
        !has_fence(s.subrange(from, s.len() as int), n),
{
    let rest = s.subrange(from, s.len() as int);
    if has_fence(rest, n) {
        let i = choose|i: int| fence_at(rest, i, n);
        assert forall|k: int| i + from <= k < i + from + n implies s[k] == '`' by {
            assert(rest[k - from] == s[k]);
        }
        assert(fence_at(s, i + from, n));
    }
}

/// No four backticks in a row stand at position `i` of the collapsed text.
proof fn lemma_collapsed_free_at(s: Seq<char>, i: int)
    requires
        !has_fence(s, 5),
    ensures
        !fence_at(collapsed(s), i, 4),
    decreases s.len(),
{
    if s.len() == 0 {
    } else if fence_at(s, 0, 4) {
        let rest = s.subrange(4, s.len() as int);
        let out = collapsed(rest);
        assert(collapsed(s) == fence(3) + out);
        lemma_suffix_has_no_fence(s, 4, 5);
        if fence_at(collapsed(s), i, 4) {
            if i >= 3 {
                assert forall|k: int| i - 3 <= k < i - 3 + 4 implies out[k] == '`' by {
                    assert(collapsed(s)[k + 3] == out[k]);
                }
                lemma_collapsed_free_at(rest, i - 3);
            } else {
                assert(collapsed(s)[3] == out[0]);
                lemma_collapsed_lead(rest, 1);
                assert(rest[0] == s[4]);
                assert(fence_at(s, 0, 5));
            }
        }
    } else {
        let rest = s.drop_first();
        let out = collapsed(rest);
        assert(collapsed(s) == seq![s[0]] + out);
        lemma_suffix_has_no_fence(s, 1, 5);
        if fence_at(collapsed(s), i, 4) {
            if i >= 1 {
                assert forall|k: int| i - 1 <= k < i - 1 + 4 implies out[k] == '`' by {
                    assert(collapsed(s)[k + 1] == out[k]);
                }
                lemma_collapsed_free_at(rest, i - 1);
            } else {
                assert(collapsed(s)[0] == s[0]);
                assert forall|k: int| 0 <= k < 3 implies out[k] == '`' by {
                    assert(collapsed(s)[k + 1] == out[k]);
                }
                lemma_collapsed_lead(rest, 3);
                assert forall|k: int| 0 <= k < 4 implies s[k] == '`' by {
                    if k >= 1 {
                        assert(rest[k - 1] == s[k]);
                    }
                }
            }
        }
    }
}

/// Collapsing leaves no four-backtick sequence behind, provided the text held
/// no five backticks in a row.
pub proof fn lemma_collapsed_has_no_fence(s: Seq<char>)
    requires
        !has_fence(s, 5),
    ensures
        !has_fence(collapsed(s), 4),
{
    assert forall|i: int| !fence_at(collapsed(s), i, 4) by {
        lemma_collapsed_free_at(s, i);
    }
}

/// A text without four backticks in a row collapses to itself.
pub proof fn lemma_collapsed_without_fence(s: Seq<char>)
    requires
        !has_fence(s, 4),
    ensures
        collapsed(s) == s,
    decreases s.len(),
{
    if s.len() > 0 {
        if fence_at(s, 0, 4) {
            assert(has_fence(s, 4));
        }
        lemma_suffix_has_no_fence(s, 1, 4);
        lemma_collapsed_without_fence(s.drop_first());
        assert(seq![s[0]] + s.drop_first() =~= s);
    }
}

/// Up to three backticks followed by another character collapse to themselves,
/// and collapsing resumes behind that character.
proof fn lemma_collapsed_short_run(run: nat, t: Seq<char>)
    requires
        run <= 3,
        t.len() > 0,
        t[0] != '`',
    ensures
        collapsed(fence(run) + t) == fence(run) + seq![t[0]] + collapsed(t.drop_first()),
    decreases run,
{
    let s = fence(run) + t;
    assert(s[run as int] == t[0]);
    assert(!fence_at(s, 0, 4));
    if run == 0 {
        assert(s =~= t);
        assert(fence(0) + seq![t[0]] =~= seq![t[0]]);
    } else {
        assert(s.drop_first() =~= fence((run - 1) as nat) + t);
        lemma_collapsed_short_run((run - 1) as nat, t);
        assert(seq![s[0]] + (fence((run - 1) as nat) + seq![t[0]] + collapsed(t.drop_first()))
            =~= fence(run) + seq![t[0]] + collapsed(t.drop_first()));
    }
}

/// Up to three backticks collapse to themselves.
proof fn lemma_collapsed_tail_run(run: nat)
    requires
        run <= 3,
    ensures
        collapsed(fence(run)) == fence(run),
    decreases run,
{
    if run > 0 {
        assert(!fence_at(fence(run), 0, 4));
        assert(fence(run).drop_first() =~= fence((run - 1) as nat));
        lemma_collapsed_tail_run((run - 1) as nat);
        assert(seq![fence(run)[0]] + fence((run - 1) as nat) =~= fence(run));
    }
}

/// Replaces each four-backtick sequence of `s` by three backticks.
pub fn collapse_fences(s: &str) -> (res: String)
    ensures
        res@ == collapsed(s@),
{
    let mut out = String::new();
    let mut run: u8 = 0;
    let ghost mut base: Seq<char> = Seq::empty();
    proof {
        assert(fence(0) + s@.subrange(0, s@.len() as int) =~= s@);
        assert(base + fence(0) =~= out@);
    }
    for c in it: s.chars()
        invariant
            it.seq() == s@,
            run <= 3,
            out@ == base + fence(run as nat),
            collapsed(s@) == base + collapsed(
                fence(run as nat) + s@.subrange(it.index() as int, s@.len() as int),
            ),
    {
        let ghost at = it.index() as int;
        let ghost here = s@.subrange(at, s@.len() as int);
        let ghost rest = s@.subrange(at + 1, s@.len() as int);
        proof {
            assert(here[0] == c);
            assert(here.drop_first() =~= rest);
        }
        if c == '`' {
            if run == 3 {
                proof {
                    let joined = fence(3) + here;
                    assert(fence_at(joined, 0, 4));
                    assert(joined.subrange(4, joined.len() as int) =~= rest);
                    assert(fence(0) + rest =~= rest);
                    assert(base + (fence(3) + collapsed(rest)) =~= (base + fence(3)) + collapsed(
                        rest,
                    ));
                    base = base + fence(3);
                    assert(base + fence(0) =~= out@);
                }
                run = 0;
            } else {
                push_char(&mut out, c);
                proof {
                    assert(fence(run as nat) + here =~= fence((run + 1) as nat) + rest);
                    assert(out@ =~= base + fence((run + 1) as nat));
                }
                run = run + 1;
            }
        } else {
            push_char(&mut out, c);
            proof {
                lemma_collapsed_short_run(run as nat, here);
                assert(fence(0) + rest =~= rest);
                assert(base + (fence(run as nat) + seq![c] + collapsed(rest)) =~= (base + fence(
                    run as nat,
                ) + seq![c]) + collapsed(rest));
                base = base + fence(run as nat) + seq![c];
                assert(out@ =~= base + fence(0));
            }
            run = 0;
        }
    }
    proof {
        assert(s@.subrange(s@.len() as int, s@.len() as int) =~= Seq::<char>::empty());
        assert(fence(run as nat) + Seq::<char>::empty() =~= fence(run as nat));
        lemma_collapsed_tail_run(run as nat);
    }
    out
}

} // verus!
