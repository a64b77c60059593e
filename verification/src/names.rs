//! The order in which the pipelines of an event type are expanded.

use vstd::prelude::*;
use crate::config::{EventTypeConfig, ids, pipeline_names};

verus! {

/// Whether `a` comes strictly before `b`: at the first place where they
/// differ `a` has the character of the lower code point, or `a` ends there
/// and `b` goes on.
pub open spec fn lex_lt(a: Seq<char>, b: Seq<char>) -> bool
    decreases a.len(),
{
    if b.len() == 0 {
        false
    } else if a.len() == 0 {
        true
    } else if a[0] != b[0] {
        (a[0] as int) < (b[0] as int)
    } else {
        lex_lt(a.drop_first(), b.drop_first())
    }
}

/// `s`, which is taken to be in order, with `x` behind the last name that
/// does not come after it.
pub open spec fn insert_sorted(s: Seq<Seq<char>>, x: Seq<char>) -> Seq<Seq<char>>
    decreases s.len(),
{
    if s.len() == 0 || !lex_lt(x, s.last()) {
        s.push(x)
    } else {
        insert_sorted(s.drop_last(), x).push(s.last())
    }
}

/// The names of `s` in ascending order; equal names keep their order.
pub open spec fn sorted(s: Seq<Seq<char>>) -> Seq<Seq<char>>
    decreases s.len(),
{
    if s.len() == 0 {
        s
    } else {
        insert_sorted(sorted(s.drop_last()), s.last())
    }
}

/// The names by which an event type is walked: the given order, or else the
/// names of its pipelines in ascending order.
pub open spec fn walk_order(e: EventTypeConfig) -> Seq<Seq<char>> {
    match e.order {
        Some(o) => ids(o@),
        None => sorted(pipeline_names(e.pipelines@)),
    }
}

/// No name of `s` comes strictly before a name that stands before it.
pub open spec fn ascending(s: Seq<Seq<char>>) -> bool {
    forall|i: int, j: int| 0 <= i < j < s.len() ==> !lex_lt(#[trigger] s[j], #[trigger] s[i])
}

/// Of two names at most one comes strictly before the other.
pub proof fn lex_lt_is_asymmetric(a: Seq<char>, b: Seq<char>)
    requires
        lex_lt(a, b),
    ensures
        !lex_lt(b, a),
    decreases a.len(),
{
    if a.len() > 0 && b.len() > 0 && a[0] == b[0] {
        lex_lt_is_asymmetric(a.drop_first(), b.drop_first());
    }
}

/// Where `a` does not come after `b`, nor `b` after `c`, `a` does not come
/// after `c`.
pub proof fn lex_order_is_transitive(a: Seq<char>, b: Seq<char>, c: Seq<char>)
    requires
        !lex_lt(b, a),
        !lex_lt(c, b),
    ensures
        !lex_lt(c, a),
    decreases a.len(),
{
    if a.len() > 0 && b.len() > 0 && c.len() > 0 {
        if a[0] == b[0] && b[0] == c[0] {
            lex_order_is_transitive(a.drop_first(), b.drop_first(), c.drop_first());
        }
    }
}

/// Putting a name into an ascending list keeps it ascending, and adds that
/// name and nothing else.
pub proof fn insert_sorted_is_ascending(s: Seq<Seq<char>>, x: Seq<char>)
    requires
        ascending(s),
    ensures
        ascending(insert_sorted(s, x)),
        insert_sorted(s, x).len() == s.len() + 1,
        insert_sorted(s, x).contains(x),
        forall|y: Seq<char>| insert_sorted(s, x).contains(y) <==> (s.contains(y) || y == x),
    decreases s.len(),
{
    let r = insert_sorted(s, x);
    if s.len() == 0 || !lex_lt(x, s.last()) {
        assert(r == s.push(x));
        assert(r[s.len() as int] == x);
        assert forall|i: int, j: int| 0 <= i < j < r.len() implies !lex_lt(
            #[trigger] r[j],
            #[trigger] r[i],
        ) by {
            if j < s.len() {
                assert(r[i] == s[i] && r[j] == s[j]);
            } else {
                assert(r[j] == x && r[i] == s[i]);
                if i < s.len() - 1 {
                    assert(!lex_lt(s[s.len() - 1], s[i]));
                    lex_order_is_transitive(s[i], s.last(), x);
                }
            }
        }
        assert forall|y: Seq<char>| r.contains(y) <==> (s.contains(y) || y == x) by {
            if r.contains(y) {
                let i = choose|i: int| 0 <= i < r.len() && r[i] == y;
                if i < s.len() {
                    assert(s[i] == y);
                }
            }
            if s.contains(y) {
                let i = choose|i: int| 0 <= i < s.len() && s[i] == y;
                assert(r[i] == y);
            }
            if y == x {
                assert(r[s.len() as int] == y);
            }
        }
    } else {
        let front = s.drop_last();
        let last = s.last();
        assert forall|i: int, j: int| 0 <= i < j < front.len() implies !lex_lt(
            #[trigger] front[j],
            #[trigger] front[i],
        ) by {
            assert(front[i] == s[i] && front[j] == s[j]);
        }
        insert_sorted_is_ascending(front, x);
        let r0 = insert_sorted(front, x);
        assert(r == r0.push(last));
        lex_lt_is_asymmetric(x, last);
        let hit = choose|hit: int| 0 <= hit < r0.len() && r0[hit] == x;
        assert(r[hit] == x);
        assert forall|i: int, j: int| 0 <= i < j < r.len() implies !lex_lt(
            #[trigger] r[j],
            #[trigger] r[i],
        ) by {
            if j < r0.len() {
                assert(r[i] == r0[i] && r[j] == r0[j]);
            } else {
                assert(r[j] == last && r[i] == r0[i]);
                assert(r0.contains(r0[i]));
                if r0[i] != x {
                    assert(front.contains(r0[i]));
                    let at = choose|at: int| 0 <= at < front.len() && front[at] == r0[i];
                    assert(front[at] == s[at]);
                    assert(!lex_lt(s[s.len() - 1], s[at]));
                }
            }
        }
        assert forall|y: Seq<char>| r.contains(y) <==> (s.contains(y) || y == x) by {
            if r.contains(y) {
                let i = choose|i: int| 0 <= i < r.len() && r[i] == y;
                if i < r0.len() {
                    assert(r0[i] == y);
                    assert(r0.contains(y));
                    if y != x {
                        assert(front.contains(y));
                        let at = choose|at: int| 0 <= at < front.len() && front[at] == y;
                        assert(s[at] == y);
                    }
                } else {
                    assert(s[s.len() - 1] == y);
                }
            }
            if s.contains(y) {
                let i = choose|i: int| 0 <= i < s.len() && s[i] == y;
                if i < front.len() {
                    assert(front[i] == y);
                    assert(front.contains(y));
                    assert(r0.contains(y));
                    let at = choose|at: int| 0 <= at < r0.len() && r0[at] == y;
                    assert(r[at] == y);
                } else {
                    assert(r[r0.len() as int] == y);
                }
            }
            if y == x {
                let at = choose|at: int| 0 <= at < r0.len() && r0[at] == x;
                assert(r[at] == x);
            }
        }
    }
}

/// `sorted(s)` is ascending, as long as `s`, and holds the names of `s`
/// and no others.
pub proof fn sorted_is_ascending(s: Seq<Seq<char>>)
    ensures
        ascending(sorted(s)),
        sorted(s).len() == s.len(),
        forall|y: Seq<char>| sorted(s).contains(y) <==> s.contains(y),
    decreases s.len(),
{
    if s.len() > 0 {
        let front = s.drop_last();
        sorted_is_ascending(front);
        insert_sorted_is_ascending(sorted(front), s.last());
        let r = sorted(s);
        assert forall|y: Seq<char>| r.contains(y) <==> s.contains(y) by {
            if s.contains(y) {
                let i = choose|i: int| 0 <= i < s.len() && s[i] == y;
                if i < front.len() {
                    assert(front[i] == y);
                    assert(front.contains(y));
                }
            }
            if front.contains(y) {
                let i = choose|i: int| 0 <= i < front.len() && front[i] == y;
                assert(s[i] == y);
            }
            if y == s.last() {
                assert(s[s.len() - 1] == y);
            }
        }
    }
}

/// `<` of std on `str`: the order of the bytes, which is the order of the
/// characters by their code points. Believed, not proved.
#[verifier::external_body]
fn text_before(a: &str, b: &str) -> (r: bool)
    ensures
        r == lex_lt(a@, b@),
{
    a < b
}

proof fn insert_sorted_is_insert(s: Seq<Seq<char>>, x: Seq<char>, at: int)
    requires
        0 <= at <= s.len(),
        forall|j: int| at <= j < s.len() ==> lex_lt(x, #[trigger] s[j]),
        at > 0 ==> !lex_lt(x, s[at - 1]),
    ensures
        insert_sorted(s, x) == s.insert(at, x),
    decreases s.len() - at,
{
    if at == s.len() {
        assert(s.push(x) =~= s.insert(at, x));
    } else {
        assert(lex_lt(x, s[s.len() - 1]));
        let front = s.drop_last();
        assert forall|j: int| at <= j < front.len() implies lex_lt(x, #[trigger] front[j]) by {
            assert(front[j] == s[j]);
        }
        if at > 0 {
            assert(front[at - 1] == s[at - 1]);
        }
        insert_sorted_is_insert(front, x, at);
        assert(front.insert(at, x).push(s.last()) =~= s.insert(at, x));
    }
}

fn insert_name(v: &mut Vec<String>, x: String)
    ensures
        ids(final(v)@) == insert_sorted(ids(old(v)@), x@),
{
    let mut at: usize = v.len();
    while at > 0 && text_before(x.as_str(), v[at - 1].as_str())
        invariant
            at <= v.len(),
            *v == *old(v),
            forall|j: int| at <= j < v.len() ==> lex_lt(x@, #[trigger] ids(v@)[j]),
        decreases at,
    {
        at -= 1;
    }
    proof {
        insert_sorted_is_insert(ids(v@), x@, at as int);
    }
    let ghost name = x@;
    v.insert(at, x);
    assert(ids(v@) =~= ids(old(v)@).insert(at as int, name));
}

/// A copy of `s`, string by string.
pub fn copy_strings(s: &[String]) -> (r: Vec<String>)
    ensures
        ids(r@) == ids(s@),
{
    let mut r: Vec<String> = Vec::new();
    let mut i: usize = 0;
    while i < s.len()
        invariant
            i <= s.len(),
            ids(r@) =~= ids(s@).take(i as int),
        decreases s.len() - i,
    {
        let ghost before = r@;
        let copy = s[i].clone();
        r.push(copy);
        assert(ids(r@) =~= ids(before).push(s@[i as int]@));
        i += 1;
    }
    assert(ids(s@).take(s.len() as int) =~= ids(s@));
    r
}

impl EventTypeConfig {
    /// The names by which the pipelines are walked: the given order as it
    /// stands, or else the names of the pipelines, ascending.
    pub fn names(&self) -> (r: Vec<String>)
        ensures
            ids(r@) == walk_order(*self),
            self.order is Some ==> ids(r@) == ids(self.order->Some_0@),
            self.order is None ==> ascending(ids(r@)) && r@.len() == self.pipelines@.len()
                && forall|y: Seq<char>|
                ids(r@).contains(y) <==> pipeline_names(self.pipelines@).contains(y),
    {
        proof {
            sorted_is_ascending(pipeline_names(self.pipelines@));
        }
        match &self.order {
            Some(o) => copy_strings(o.as_slice()),
            None => {
                let mut r: Vec<String> = Vec::new();
                let mut i: usize = 0;
                let ghost all = pipeline_names(self.pipelines@);
                assert(ids(r@) =~= sorted(all.take(0)));
                while i < self.pipelines.len()
                    invariant
                        i <= self.pipelines.len(),
                        all == pipeline_names(self.pipelines@),
                        ids(r@) == sorted(all.take(i as int)),
                    decreases self.pipelines.len() - i,
                {
                    assert(all.take(i + 1).drop_last() =~= all.take(i as int));
                    insert_name(&mut r, self.pipelines[i].0.clone());
                    i += 1;
                }
                assert(all.take(i as int) =~= all);
                r
            },
        }
    }
}

} // verus!
