//! Futures that are made of futures.
use crate::async_rt::{Future, Poll};
use vstd::prelude::*;

verus! {

/// A future, or what came out of it.
pub enum MaybeDone<F, T> {
    Pending(F),
    Done(T),
    Taken,
}

/// A part is polled where it is not done.
pub open spec fn part_polled<C, F: Future<C>>(
    before: MaybeDone<F, F::Output>,
    c0: C,
    after: MaybeDone<F, F::Output>,
    c1: C,
) -> bool {
    match before {
        MaybeDone::Pending(f) => exists|g: F, r: Poll<F::Output>| #[trigger]
            F::polled(f, c0, g, c1, r) && after == (match r {
                Poll::Ready(v) => MaybeDone::Done(v),
                Poll::Pending => MaybeDone::Pending(g),
            }),
        _ => after == before && c1 == c0,
    }
}

/// Polls a part where it is not done.
fn poll_part<C, F: Future<C>>(part: &mut MaybeDone<F, F::Output>, cx: &mut C)
    ensures
        part_polled(*old(part), *old(cx), *final(part), *final(cx)),
{
    let mut done: Option<F::Output> = None;
    if let MaybeDone::Pending(f) = part {
        let r: Poll<F::Output> = f.poll(cx);
        if let Poll::Ready(v) = r {
            done = Some(v);
        }
    }
    if let Some(v) = done {
        *part = MaybeDone::Done(v);
    }
}

/// The part is done.
pub open spec fn is_done<F, T>(part: MaybeDone<F, T>) -> bool {
    part is Done
}

/// What a part that is done came to.
pub open spec fn value_of<F, T>(part: MaybeDone<F, T>) -> T {
    part->Done_0
}

/// Whether a part is done.
fn done<F, T>(part: &MaybeDone<F, T>) -> (r: bool)
    ensures
        r == is_done(*part),
{
    match part {
        MaybeDone::Done(_) => true,
        _ => false,
    }
}

/// Takes the result of a part.
fn take<F, T>(part: &mut MaybeDone<F, T>) -> (r: Option<T>)
    ensures
        *final(part) == MaybeDone::<F, T>::Taken,
        r == (if is_done(*old(part)) {
            Some(value_of(*old(part)))
        } else {
            None
        }),
{
    let mut p: MaybeDone<F, T> = MaybeDone::Taken;
    std::mem::swap(&mut p, part);
    match p {
        MaybeDone::Done(v) => Some(v),
        _ => None,
    }
}

/// Drives two futures to their ends.
pub struct Join<C, FA: Future<C>, FB: Future<C>> {
    pub a: MaybeDone<FA, FA::Output>,
    pub b: MaybeDone<FB, FB::Output>,
}

/// Drives two futures to their ends, and gives both results.
pub fn join<C, FA: Future<C>, FB: Future<C>>(a: FA, b: FB) -> (r: Join<C, FA, FB>)
    ensures
        r.a == MaybeDone::<FA, FA::Output>::Pending(a),
        r.b == MaybeDone::<FB, FB::Output>::Pending(b),
{
    Join { a: MaybeDone::Pending(a), b: MaybeDone::Pending(b) }
}

/// Both parts have been polled, first `a`, then `b`; the results come out once both
/// are there.
pub open spec fn joined<C, FA: Future<C>, FB: Future<C>>(
    before: Join<C, FA, FB>,
    c0: C,
    mid: Join<C, FA, FB>,
    cm: C,
    after: Join<C, FA, FB>,
    c1: C,
    r: Poll<(FA::Output, FB::Output)>,
) -> bool {
    &&& part_polled(before.a, c0, mid.a, cm)
    &&& part_polled(before.b, cm, mid.b, c1)
    &&& if is_done(mid.a) && is_done(mid.b) {
        &&& r == Poll::Ready((value_of(mid.a), value_of(mid.b)))
        &&& after.a is Taken
        &&& after.b is Taken
    } else {
        &&& r == Poll::<(FA::Output, FB::Output)>::Pending
        &&& after == mid
    }
}

impl<C, FA: Future<C>, FB: Future<C>> Future<C> for Join<C, FA, FB> {
    type Output = (FA::Output, FB::Output);

    open spec fn polled(
        before: Self,
        c0: C,
        after: Self,
        c1: C,
        r: Poll<(FA::Output, FB::Output)>,
    ) -> bool {
        exists|mid: Self, cm: C| #[trigger] joined(before, c0, mid, cm, after, c1, r)
    }

    fn poll(&mut self, cx: &mut C) -> (r: Poll<(FA::Output, FB::Output)>) {
        let ghost before = *self;
        let ghost c0 = *cx;
        poll_part(&mut self.a, cx);
        let ghost cm = *cx;
        poll_part(&mut self.b, cx);
        let ghost mid = *self;
        if !done(&self.a) || !done(&self.b) {
            let r: Poll<(FA::Output, FB::Output)> = Poll::Pending;
            assert(joined(before, c0, mid, cm, *self, *cx, r));
            return r;
        }
        let a: Option<FA::Output> = take(&mut self.a);
        let b: Option<FB::Output> = take(&mut self.b);
        let r: Poll<(FA::Output, FB::Output)> = match (a, b) {
            (Some(a), Some(b)) => Poll::Ready((a, b)),
            _ => Poll::Pending,
        };
        assert(joined(before, c0, mid, cm, *self, *cx, r));
        r
    }
}

/// Drives three futures to their ends.
pub struct Join3<C, FA: Future<C>, FB: Future<C>, FC: Future<C>> {
    pub a: MaybeDone<FA, FA::Output>,
    pub b: MaybeDone<FB, FB::Output>,
    pub c: MaybeDone<FC, FC::Output>,
}

/// Drives three futures to their ends, and gives all results.
pub fn join3<C, FA: Future<C>, FB: Future<C>, FC: Future<C>>(a: FA, b: FB, c: FC) -> (r: Join3<
    C,
    FA,
    FB,
    FC,
>)
    ensures
        r.a == MaybeDone::<FA, FA::Output>::Pending(a),
        r.b == MaybeDone::<FB, FB::Output>::Pending(b),
        r.c == MaybeDone::<FC, FC::Output>::Pending(c),
{
    Join3 { a: MaybeDone::Pending(a), b: MaybeDone::Pending(b), c: MaybeDone::Pending(c) }
}

/// All parts have been polled, in their order; the results come out once all are
/// there.
pub open spec fn joined3<C, FA: Future<C>, FB: Future<C>, FC: Future<C>>(
    before: Join3<C, FA, FB, FC>,
    c0: C,
    mid: Join3<C, FA, FB, FC>,
    ca: C,
    cb: C,
    after: Join3<C, FA, FB, FC>,
    c1: C,
    r: Poll<(FA::Output, FB::Output, FC::Output)>,
) -> bool {
    &&& part_polled(before.a, c0, mid.a, ca)
    &&& part_polled(before.b, ca, mid.b, cb)
    &&& part_polled(before.c, cb, mid.c, c1)
    &&& if is_done(mid.a) && is_done(mid.b) && is_done(mid.c) {
        &&& r == Poll::Ready((value_of(mid.a), value_of(mid.b), value_of(mid.c)))
        &&& after.a is Taken
        &&& after.b is Taken
        &&& after.c is Taken
    } else {
        &&& r == Poll::<(FA::Output, FB::Output, FC::Output)>::Pending
        &&& after == mid
    }
}

impl<C, FA: Future<C>, FB: Future<C>, FC: Future<C>> Future<C> for Join3<C, FA, FB, FC> {
    type Output = (FA::Output, FB::Output, FC::Output);

    open spec fn polled(
        before: Self,
        c0: C,
        after: Self,
        c1: C,
        r: Poll<(FA::Output, FB::Output, FC::Output)>,
    ) -> bool {
        exists|mid: Self, ca: C, cb: C| #[trigger]
            joined3(before, c0, mid, ca, cb, after, c1, r)
    }

    fn poll(&mut self, cx: &mut C) -> (r: Poll<(FA::Output, FB::Output, FC::Output)>) {
        let ghost before = *self;
        let ghost c0 = *cx;
        poll_part(&mut self.a, cx);
        let ghost ca = *cx;
        poll_part(&mut self.b, cx);
        let ghost cb = *cx;
        poll_part(&mut self.c, cx);
        let ghost mid = *self;
        if !done(&self.a) || !done(&self.b) || !done(&self.c) {
            let r: Poll<(FA::Output, FB::Output, FC::Output)> = Poll::Pending;
            assert(joined3(before, c0, mid, ca, cb, *self, *cx, r));
            return r;
        }
        let a: Option<FA::Output> = take(&mut self.a);
        let b: Option<FB::Output> = take(&mut self.b);
        let c: Option<FC::Output> = take(&mut self.c);
        let r: Poll<(FA::Output, FB::Output, FC::Output)> = match (a, b, c) {
            (Some(a), Some(b), Some(c)) => Poll::Ready((a, b, c)),
            _ => Poll::Pending,
        };
        assert(joined3(before, c0, mid, ca, cb, *self, *cx, r));
        r
    }
}

/// Drives any number of futures to their ends.
pub struct JoinAll<C, F: Future<C>> {
    pub parts: Vec<MaybeDone<F, F::Output>>,
}

/// Drives any number of futures to their ends, and gives all results in the order of
/// the futures.
pub fn join_all<C, F: Future<C>>(futures: Vec<F>) -> (r: JoinAll<C, F>)
    ensures
        r.parts@ == Seq::new(
            futures@.len(),
            |i: int| MaybeDone::<F, F::Output>::Pending(futures@[i]),
        ),
{
    let mut rest: Vec<F> = futures;
    let mut parts: Vec<MaybeDone<F, F::Output>> = Vec::new();
    let n: usize = rest.len();
    let mut i: usize = 0;
    while i < n
        invariant
            i <= n,
            n == futures@.len(),
            rest@ == futures@.skip(i as int),
            parts@ == Seq::new(
                i as nat,
                |j: int| MaybeDone::<F, F::Output>::Pending(futures@[j]),
            ),
        decreases n - i,
    {
        let f: F = rest.remove(0);
        parts.push(MaybeDone::Pending(f));
        i = i + 1;
        assert(rest@ =~= futures@.skip(i as int));
        assert(parts@ =~= Seq::new(
            i as nat,
            |j: int| MaybeDone::<F, F::Output>::Pending(futures@[j]),
        ));
    }
    JoinAll { parts }
}

/// The parts before `k` have been polled, in their order, in the contexts that `cs`
/// lists.
pub open spec fn parts_polled<C, F: Future<C>>(
    before: Seq<MaybeDone<F, F::Output>>,
    mid: Seq<MaybeDone<F, F::Output>>,
    cs: Seq<C>,
) -> bool {
    &&& mid.len() == before.len()
    &&& cs.len() == before.len() + 1
    &&& forall|i: int|
        0 <= i < before.len() ==> #[trigger] part_polled(before[i], cs[i], mid[i], cs[i + 1])
}

/// All parts have been polled; the results come out once all are there.
pub open spec fn joined_all<C, F: Future<C>>(
    before: JoinAll<C, F>,
    mid: Seq<MaybeDone<F, F::Output>>,
    cs: Seq<C>,
    after: JoinAll<C, F>,
    r: Poll<Vec<F::Output>>,
) -> bool {
    &&& parts_polled(before.parts@, mid, cs)
    &&& if forall|i: int| 0 <= i < mid.len() ==> is_done(#[trigger] mid[i]) {
        &&& r matches Poll::Ready(v) && v@ == Seq::new(mid.len(), |i: int| value_of(mid[i]))
        &&& after.parts@ == Seq::new(mid.len(), |i: int| MaybeDone::<F, F::Output>::Taken)
    } else {
        &&& r is Pending
        &&& after.parts@ == mid
    }
}

impl<C, F: Future<C>> JoinAll<C, F> {
    /// Polls the parts that are not done; whether all are then.
    fn poll_parts(&mut self, cx: &mut C) -> (r: bool)
        ensures
            exists|cs: Seq<C>|
                cs.len() > 0 && cs[0] == *old(cx) && cs.last() == *final(cx)
                    && #[trigger] parts_polled(old(self).parts@, final(self).parts@, cs),
            r == (forall|i: int|
                0 <= i < final(self).parts@.len() ==> is_done(#[trigger] final(self).parts@[i])),
    {
        let n: usize = self.parts.len();
        let ghost before = self.parts@;
        let ghost mut cs: Seq<C> = seq![*cx];
        let ghost mut open: int = 0;
        let mut all: bool = true;
        let mut i: usize = 0;
        while i < n
            invariant
                i <= n,
                n == before.len(),
                self.parts@.len() == n,
                cs.len() == i + 1,
                cs[0] == *old(cx),
                cs.last() == *cx,
                forall|j: int|
                    0 <= j < i ==> #[trigger] part_polled(
                        before[j],
                        cs[j],
                        self.parts@[j],
                        cs[j + 1],
                    ),
                forall|j: int| i <= j < n ==> #[trigger] self.parts@[j] == before[j],
                all ==> forall|j: int| 0 <= j < i ==> is_done(#[trigger] self.parts@[j]),
                !all ==> 0 <= open < i && !is_done(self.parts@[open]),
            decreases n - i,
        {
            let ghost mid = self.parts@;
            poll_part(&mut self.parts[i], cx);
            proof {
                let ghost cs0 = cs;
                cs = cs.push(*cx);
                assert forall|j: int| 0 <= j < i + 1 implies #[trigger] part_polled(
                    before[j],
                    cs[j],
                    self.parts@[j],
                    cs[j + 1],
                ) by {
                    if j < i {
                        assert(part_polled(before[j], cs0[j], mid[j], cs0[j + 1]));
                        assert(self.parts@[j] == mid[j]);
                    }
                }
                assert forall|j: int| 0 <= j < i implies #[trigger] self.parts@[j]
                    == mid[j] by {}
            }
            if !done(&self.parts[i]) {
                all = false;
                proof {
                    open = i as int;
                }
            }
            i = i + 1;
        }
        assert(parts_polled(before, self.parts@, cs));
        all
    }

    /// Takes the results of parts that are all done.
    fn take_all(&mut self) -> (r: Vec<F::Output>)
        requires
            forall|i: int|
                0 <= i < old(self).parts@.len() ==> is_done(#[trigger] old(self).parts@[i]),
        ensures
            r@ == Seq::new(old(self).parts@.len(), |i: int| value_of(old(self).parts@[i])),
            final(self).parts@ == Seq::new(
                old(self).parts@.len(),
                |i: int| MaybeDone::<F, F::Output>::Taken,
            ),
    {
        let n: usize = self.parts.len();
        let ghost before = self.parts@;
        let mut values: Vec<F::Output> = Vec::new();
        let mut i: usize = 0;
        while i < n
            invariant
                i <= n,
                n == before.len(),
                self.parts@.len() == n,
                forall|j: int| 0 <= j < n ==> is_done(#[trigger] before[j]),
                values@ == Seq::new(i as nat, |j: int| value_of(before[j])),
                forall|j: int| 0 <= j < i ==> (#[trigger] self.parts@[j]) is Taken,
                forall|j: int| i <= j < n ==> #[trigger] self.parts@[j] == before[j],
            decreases n - i,
        {
            assert(self.parts@[i as int] == before[i as int]);
            assert(is_done(before[i as int]));
            let v: Option<F::Output> = take(&mut self.parts[i]);
            if let Some(v) = v {
                values.push(v);
            }
            i = i + 1;
            assert(values@ =~= Seq::new(i as nat, |j: int| value_of(before[j])));
        }
        assert(self.parts@ =~= Seq::new(n as nat, |i: int| MaybeDone::<F, F::Output>::Taken));
        values
    }
}

impl<C, F: Future<C>> Future<C> for JoinAll<C, F> {
    type Output = Vec<F::Output>;

    open spec fn polled(before: Self, c0: C, after: Self, c1: C, r: Poll<Vec<F::Output>>) -> bool {
        exists|mid: Seq<MaybeDone<F, F::Output>>, cs: Seq<C>|
            cs.len() > 0 && cs[0] == c0 && cs.last() == c1 && #[trigger] joined_all(
                before,
                mid,
                cs,
                after,
                r,
            )
    }

    fn poll(&mut self, cx: &mut C) -> (r: Poll<Vec<F::Output>>) {
        let ghost before = *self;
        let ghost c0 = *cx;
        let all: bool = self.poll_parts(cx);
        let ghost mid = self.parts@;
        let ghost cs = choose|cs: Seq<C>|
            cs.len() > 0 && cs[0] == c0 && cs.last() == *cx && #[trigger] parts_polled(
                before.parts@,
                mid,
                cs,
            );
        if !all {
            let r: Poll<Vec<F::Output>> = Poll::Pending;
            assert(joined_all(before, mid, cs, *self, r));
            return r;
        }
        let values: Vec<F::Output> = self.take_all();
        let r: Poll<Vec<F::Output>> = Poll::Ready(values);
        assert(joined_all(before, mid, cs, *self, r));
        r
    }
}

/// Which of two futures was ready first.
pub enum Either<A, B> {
    Left(A),
    Right(B),
}

/// Drives two futures until one is ready.
pub struct Select<FA, FB> {
    pub a: FA,
    pub b: FB,
}

/// Drives two futures, and gives the result of the one that is ready first. The other
/// is dropped.
pub fn select<FA, FB>(a: FA, b: FB) -> (r: Select<FA, FB>)
    ensures
        r.a == a,
        r.b == b,
{
    Select { a, b }
}

/// `a` has been polled, and `b` after it where `a` was not ready.
pub open spec fn selected<C, FA: Future<C>, FB: Future<C>>(
    before: Select<FA, FB>,
    c0: C,
    cm: C,
    ra: Poll<FA::Output>,
    after: Select<FA, FB>,
    c1: C,
    r: Poll<Either<FA::Output, FB::Output>>,
) -> bool {
    &&& FA::polled(before.a, c0, after.a, cm, ra)
    &&& match ra {
        Poll::Ready(v) => {
            &&& r == Poll::Ready(Either::<FA::Output, FB::Output>::Left(v))
            &&& after.b == before.b
            &&& c1 == cm
        },
        Poll::Pending => exists|rb: Poll<FB::Output>| #[trigger]
            FB::polled(before.b, cm, after.b, c1, rb) && r == (match rb {
                Poll::Ready(v) => Poll::Ready(Either::<FA::Output, FB::Output>::Right(v)),
                Poll::Pending => Poll::Pending,
            }),
    }
}

impl<C, FA: Future<C>, FB: Future<C>> Future<C> for Select<FA, FB> {
    type Output = Either<FA::Output, FB::Output>;

    open spec fn polled(
        before: Self,
        c0: C,
        after: Self,
        c1: C,
        r: Poll<Either<FA::Output, FB::Output>>,
    ) -> bool {
        exists|cm: C, ra: Poll<FA::Output>| #[trigger] selected(before, c0, cm, ra, after, c1, r)
    }

    fn poll(&mut self, cx: &mut C) -> (r: Poll<Either<FA::Output, FB::Output>>) {
        let ghost before = *self;
        let ghost c0 = *cx;
        let ra: Poll<FA::Output> = self.a.poll(cx);
        let ghost cm = *cx;
        let ghost ga = ra;
        if let Poll::Ready(v) = ra {
            let r: Poll<Either<FA::Output, FB::Output>> = Poll::Ready(Either::Left(v));
            assert(selected(before, c0, cm, ga, *self, *cx, r));
            return r;
        }
        let rb: Poll<FB::Output> = self.b.poll(cx);
        let ghost gb = rb;
        let r: Poll<Either<FA::Output, FB::Output>> = match rb {
            Poll::Ready(v) => Poll::Ready(Either::Right(v)),
            Poll::Pending => Poll::Pending,
        };
        assert(FB::polled(before.b, cm, self.b, *cx, gb));
        assert(selected(before, c0, cm, ga, *self, *cx, r));
        r
    }
}

/// A part that is done is never polled again: whatever the other one does, a join
/// keeps the result, and gives it in the end.
pub proof fn law_join_keeps_results<C, FA: Future<C>, FB: Future<C>>(
    before: Join<C, FA, FB>,
    c0: C,
    after: Join<C, FA, FB>,
    c1: C,
    r: Poll<(FA::Output, FB::Output)>,
)
    requires
        is_done(before.a),
        Join::<C, FA, FB>::polled(before, c0, after, c1, r),
    ensures
        match r {
            Poll::Ready(v) => v.0 == value_of(before.a),
            Poll::Pending => after.a == before.a,
        },
        part_polled(before.b, c0, after.b, c1) || r is Ready,
{
    let (mid, cm) = choose|mid: Join<C, FA, FB>, cm: C| #[trigger]
        joined(before, c0, mid, cm, after, c1, r);
    assert(joined(before, c0, mid, cm, after, c1, r));
}

/// A join is ready exactly when no part is left that has no result.
pub proof fn law_join_waits_for_both<C, FA: Future<C>, FB: Future<C>>(
    before: Join<C, FA, FB>,
    c0: C,
    after: Join<C, FA, FB>,
    c1: C,
    r: Poll<(FA::Output, FB::Output)>,
)
    requires
        Join::<C, FA, FB>::polled(before, c0, after, c1, r),
        !(before.a is Taken),
        !(before.b is Taken),
    ensures
        r is Pending ==> !is_done(after.a) || !is_done(after.b),
        r is Pending ==> !(after.a is Taken) && !(after.b is Taken),
        r is Ready ==> after.a is Taken && after.b is Taken,
{
    let (mid, cm) = choose|mid: Join<C, FA, FB>, cm: C| #[trigger]
        joined(before, c0, mid, cm, after, c1, r);
    assert(joined(before, c0, mid, cm, after, c1, r));
}

/// Where both futures would be ready, the first wins: the second is not even
/// polled.
pub proof fn law_left_wins<C, FA: Future<C>, FB: Future<C>>(
    before: Select<FA, FB>,
    c0: C,
    after: Select<FA, FB>,
    c1: C,
    r: Poll<Either<FA::Output, FB::Output>>,
)
    requires
        <Select<FA, FB> as Future<C>>::polled(before, c0, after, c1, r),
        forall|f: FA, cm: C, ra: Poll<FA::Output>| #[trigger]
            FA::polled(before.a, c0, f, cm, ra) ==> ra is Ready,
    ensures
        r matches Poll::Ready(Either::Left(_)),
        after.b == before.b,
{
    let (cm, ra) = choose|cm: C, ra: Poll<FA::Output>| #[trigger]
        selected(before, c0, cm, ra, after, c1, r);
    assert(selected(before, c0, cm, ra, after, c1, r));
}

/// The results of any number of futures come in the order of the futures, one for
/// each.
pub proof fn law_join_all_keeps_order<C, F: Future<C>>(
    before: JoinAll<C, F>,
    c0: C,
    after: JoinAll<C, F>,
    c1: C,
    r: Poll<Vec<F::Output>>,
    i: int,
)
    requires
        JoinAll::<C, F>::polled(before, c0, after, c1, r),
        r is Ready,
        0 <= i < before.parts@.len(),
    ensures
        r->Ready_0@.len() == before.parts@.len(),
        is_done(before.parts@[i]) ==> r->Ready_0@[i] == value_of(before.parts@[i]),
{
    let (mid, cs) = choose|mid: Seq<MaybeDone<F, F::Output>>, cs: Seq<C>|
        cs.len() > 0 && cs[0] == c0 && cs.last() == c1 && #[trigger] joined_all(
            before,
            mid,
            cs,
            after,
            r,
        );
    assert(joined_all(before, mid, cs, after, r));
    assert(part_polled(before.parts@[i], cs[i], mid[i], cs[i + 1]));
}

/// Whatever the context, a poll of `f` is ready with `x`.
pub open spec fn ready_with<C, F: Future<C>>(f: F, x: F::Output) -> bool {
    forall|c0: C, g: F, c1: C, r: Poll<F::Output>| #[trigger]
        F::polled(f, c0, g, c1, r) ==> r == Poll::Ready(x)
}

/// Whatever the context, a poll of `f` is not ready.
pub open spec fn not_ready<C, F: Future<C>>(f: F) -> bool {
    forall|c0: C, g: F, c1: C, r: Poll<F::Output>| #[trigger]
        F::polled(f, c0, g, c1, r) ==> r is Pending
}

/// A join of two futures gives the result of each in its own place, in the poll in which the
/// second of them is ready; while one of them is not, there is no result.
pub proof fn law_join_gives_both<C, FA: Future<C>, FB: Future<C>>(
    a: FA,
    b: FB,
    x: FA::Output,
    y: FB::Output,
    before: Join<C, FA, FB>,
    c0: C,
    after: Join<C, FA, FB>,
    c1: C,
    r: Poll<(FA::Output, FB::Output)>,
)
    requires
        before.a == MaybeDone::<FA, FA::Output>::Pending(a),
        before.b == MaybeDone::<FB, FB::Output>::Pending(b),
        Join::<C, FA, FB>::polled(before, c0, after, c1, r),
    ensures
        ready_with::<C, FA>(a, x) && ready_with::<C, FB>(b, y) ==> r == Poll::Ready((x, y)),
        not_ready::<C, FA>(a) || not_ready::<C, FB>(b) ==> r is Pending,
        ready_with::<C, FA>(a, x) && not_ready::<C, FB>(b) ==> after.a == MaybeDone::<
            FA,
            FA::Output,
        >::Done(x) && after.b is Pending,
        not_ready::<C, FA>(a) && ready_with::<C, FB>(b, y) ==> after.a is Pending && after.b
            == MaybeDone::<FB, FB::Output>::Done(y),
{
    let (mid, cm) = choose|mid: Join<C, FA, FB>, cm: C| #[trigger]
        joined(before, c0, mid, cm, after, c1, r);
    assert(joined(before, c0, mid, cm, after, c1, r));
    assert(part_polled(before.a, c0, mid.a, cm));
    assert(part_polled(before.b, cm, mid.b, c1));
}

/// A join of three futures gives the result of each in its own place.
pub proof fn law_join3_gives_all<C, FA: Future<C>, FB: Future<C>, FC: Future<C>>(
    a: FA,
    b: FB,
    c: FC,
    x: FA::Output,
    y: FB::Output,
    z: FC::Output,
    before: Join3<C, FA, FB, FC>,
    c0: C,
    after: Join3<C, FA, FB, FC>,
    c1: C,
    r: Poll<(FA::Output, FB::Output, FC::Output)>,
)
    requires
        before.a == MaybeDone::<FA, FA::Output>::Pending(a),
        before.b == MaybeDone::<FB, FB::Output>::Pending(b),
        before.c == MaybeDone::<FC, FC::Output>::Pending(c),
        Join3::<C, FA, FB, FC>::polled(before, c0, after, c1, r),
    ensures
        ready_with::<C, FA>(a, x) && ready_with::<C, FB>(b, y) && ready_with::<C, FC>(c, z) ==> r
            == Poll::Ready((x, y, z)),
        not_ready::<C, FA>(a) || not_ready::<C, FB>(b) || not_ready::<C, FC>(c) ==> r is Pending,
{
    let (mid, ca, cb) = choose|mid: Join3<C, FA, FB, FC>, ca: C, cb: C| #[trigger]
        joined3(before, c0, mid, ca, cb, after, c1, r);
    assert(joined3(before, c0, mid, ca, cb, after, c1, r));
    assert(part_polled(before.a, c0, mid.a, ca));
    assert(part_polled(before.b, ca, mid.b, cb));
    assert(part_polled(before.c, cb, mid.c, c1));
}

/// Of two futures the one that is ready gives the result, with the side that it is on; while
/// neither is, there is none.
pub proof fn law_select_gives_the_ready_one<C, FA: Future<C>, FB: Future<C>>(
    x: FA::Output,
    y: FB::Output,
    before: Select<FA, FB>,
    c0: C,
    after: Select<FA, FB>,
    c1: C,
    r: Poll<Either<FA::Output, FB::Output>>,
)
    requires
        <Select<FA, FB> as Future<C>>::polled(before, c0, after, c1, r),
    ensures
        ready_with::<C, FA>(before.a, x) ==> r == Poll::Ready(
            Either::<FA::Output, FB::Output>::Left(x),
        ),
        not_ready::<C, FA>(before.a) && ready_with::<C, FB>(before.b, y) ==> r == Poll::Ready(
            Either::<FA::Output, FB::Output>::Right(y),
        ),
        not_ready::<C, FA>(before.a) && not_ready::<C, FB>(before.b) ==> r is Pending,
{
    let (cm, ra) = choose|cm: C, ra: Poll<FA::Output>| #[trigger]
        selected(before, c0, cm, ra, after, c1, r);
    assert(selected(before, c0, cm, ra, after, c1, r));
}

/// A join of any number of futures gives the result of each at its own place, once all are
/// ready, and none before.
pub proof fn law_join_all_gives_all<C, F: Future<C>>(
    fs: Seq<F>,
    xs: Seq<F::Output>,
    before: JoinAll<C, F>,
    c0: C,
    after: JoinAll<C, F>,
    c1: C,
    r: Poll<Vec<F::Output>>,
)
    requires
        before.parts@.len() == fs.len(),
        xs.len() == fs.len(),
        forall|i: int|
            0 <= i < fs.len() ==> (#[trigger] before.parts@[i]) == MaybeDone::<
                F,
                F::Output,
            >::Pending(fs[i]),
        JoinAll::<C, F>::polled(before, c0, after, c1, r),
    ensures
        (forall|i: int| 0 <= i < fs.len() ==> ready_with::<C, F>(#[trigger] fs[i], xs[i])) ==> r
            is Ready && r->Ready_0@ == xs,
        (exists|i: int| 0 <= i < fs.len() && not_ready::<C, F>(#[trigger] fs[i])) ==> r is Pending,
{
    let (mid, cs) = choose|mid: Seq<MaybeDone<F, F::Output>>, cs: Seq<C>|
        cs.len() > 0 && cs[0] == c0 && cs.last() == c1 && #[trigger] joined_all(
            before,
            mid,
            cs,
            after,
            r,
        );
    assert(joined_all(before, mid, cs, after, r));
    if forall|i: int| 0 <= i < fs.len() ==> ready_with::<C, F>(#[trigger] fs[i], xs[i]) {
        assert forall|i: int| 0 <= i < mid.len() implies (#[trigger] mid[i]) == MaybeDone::<
            F,
            F::Output,
        >::Done(xs[i]) by {
            assert(ready_with::<C, F>(fs[i], xs[i]));
            assert(part_polled(before.parts@[i], cs[i], mid[i], cs[i + 1]));
        }
        assert(r->Ready_0@ =~= xs);
    }
    if exists|i: int| 0 <= i < fs.len() && not_ready::<C, F>(#[trigger] fs[i]) {
        let i = choose|i: int| 0 <= i < fs.len() && not_ready::<C, F>(#[trigger] fs[i]);
        assert(part_polled(before.parts@[i], cs[i], mid[i], cs[i + 1]));
        assert(!is_done(mid[i]));
    }
}

} // verus!
