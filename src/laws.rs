use vstd::prelude::*;
use crate::ctx::{DukContext, JsValue};

verus! {

/// Whether `states` runs: push a thread value, enter its context, `n - 1` further such
/// nestings inside that context, leave it, and pop the thread value.
pub open spec fn nested_round_trip(states: Seq<DukContext>, n: nat) -> bool
    decreases n,
{
    if n == 0 {
        states.len() == 1
    } else {
        let len = states.len() as int;
        &&& len == 4 * n + 1
        &&& DukContext::pushed_thread(&states[0], &states[1], states[1].threads@.last().global)
        &&& DukContext::entered(&states[1], &states[2], states[0].threads@.len() as usize)
        &&& nested_round_trip(states.subrange(2, len - 2), (n - 1) as nat)
        &&& DukContext::left(&states[len - 3], &states[len - 2])
        &&& DukContext::popped(&states[len - 2], &states[len - 1])
    }
}

/// Creating `n` nested child contexts, then leaving them innermost first and popping each
/// thread value, gives back the starting context with its stack exactly as it was, and leaves
/// every other context that existed before untouched.
pub proof fn lemma_nested_contexts(states: Seq<DukContext>, n: nat)
    requires
        states.len() >= 1,
        states[0].wf(),
        nested_round_trip(states, n),
    ensures
        states.last().wf(),
        states.last().active@ == states[0].active@,
        states.last().stack() == states[0].stack(),
        states.last().threads@.len() >= states[0].threads@.len(),
        forall|t: int|
            0 <= t < states[0].threads@.len() && t != states[0].current() ==> #[trigger] states.last().threads@[t]
                == states[0].threads@[t],
        states.last().threads@[states[0].current()].global == states[0].threads@[states[0].current()].global,
    decreases n,
{
    if n > 0 {
        let len = states.len() as int;
        let inner = states.subrange(2, len - 2);
        assert(inner[0] == states[2]);
        assert(inner.last() == states[len - 3]);
        lemma_nested_contexts(inner, (n - 1) as nat);
        let s0 = states[0];
        let s1 = states[1];
        let s2 = states[2];
        let c0 = s0.current();
        assert(s1.current() == c0);
        assert(s2.current() == s0.threads@.len());
        assert(s2.current() != c0);
        assert(states[len - 2].active@ =~= s1.active@);
        assert(states[len - 3].threads@[c0] == s2.threads@[c0]);
        assert(states[len - 2].stack() == s1.stack());
        assert(states.last().stack() =~= s0.stack());
    }
}

/// A value copied from context `from` is a slot of its own: whatever afterwards changes only
/// the current stack leaves the source stack as it was. The copy is the same value as the
/// source slot holds, so a copied object is one object seen from both contexts.
pub proof fn lemma_transfer(a: &DukContext, b: &DukContext, c: &DukContext, from: usize, count: usize)
    requires
        a.wf(),
        from < a.threads@.len(),
        from != a.current(),
        1 <= count,
        DukContext::copied_top(a, b, from, count),
        b.same_threads_but_stack(c),
    ensures
        c.threads@[from as int].stack@ == a.threads@[from as int].stack@,
        b.stack().last() == b.threads@[from as int].stack@.last(),
        a.threads@[from as int].stack@.last() matches JsValue::Object(o) ==> b.stack().last()
            == JsValue::Object(o),
{
    let src = a.threads@[from as int].stack@;
    assert(b.stack().last() == src.subrange(src.len() - count, src.len() as int).last());
}

} // verus!
