//! A gate that chooses the check by the kind of the event.
use vstd::prelude::*;

use crate::error::{SchemaViolation, ViolationView};
use crate::gate::{verdict_view, CandidateView, GateCtx, SchemaGate};
use crate::text::{same_text, IntoText};

verus! {

/// Whether `check` may answer `verdict` to `candidate`.
pub open spec fn check_may_answer<F: Fn(&GateCtx<'_>) -> Result<(), SchemaViolation>>(
    check: F,
    candidate: CandidateView,
    verdict: Result<(), ViolationView>,
) -> bool {
    exists|ctx: &GateCtx<'_>, r: Result<(), SchemaViolation>|
        ctx@ == candidate && verdict_view(r) == verdict && #[trigger] call_ensures(
            check,
            (ctx,),
            r,
        )
}

/// A gate that everything passes.
pub struct PassAll;

impl SchemaGate for PassAll {
    open spec fn may_answer(
        &self,
        candidate: CandidateView,
        verdict: Result<(), ViolationView>,
    ) -> bool {
        verdict is Ok
    }

    fn validate(&self, ctx: &GateCtx<'_>) -> (r: Result<(), SchemaViolation>) {
        Ok(())
    }
}

/// A gate made of a function.
pub struct FnGate<F: Fn(&GateCtx<'_>) -> Result<(), SchemaViolation> + Send + Sync> {
    check: F,
}

impl<F: Fn(&GateCtx<'_>) -> Result<(), SchemaViolation> + Send + Sync> FnGate<F> {
    #[verifier::type_invariant]
    spec fn total(&self) -> bool {
        forall|ctx: &GateCtx<'_>| call_requires(self.check, (ctx,))
    }

    /// The function.
    pub closed spec fn check(&self) -> F {
        self.check
    }
}

impl<F: Fn(&GateCtx<'_>) -> Result<(), SchemaViolation> + Send + Sync> SchemaGate for FnGate<F> {
    open spec fn may_answer(
        &self,
        candidate: CandidateView,
        verdict: Result<(), ViolationView>,
    ) -> bool {
        check_may_answer(self.check(), candidate, verdict)
    }

    fn validate(&self, ctx: &GateCtx<'_>) -> (r: Result<(), SchemaViolation>) {
        proof {
            use_type_invariant(self);
        }
        (self.check)(ctx)
    }
}

/// Checks by kind.
pub trait KindTable: Send + Sync {
    /// Whether `kind` has a check.
    spec fn covers(&self, kind: Seq<char>) -> bool;

    /// Whether the check of the candidate's kind may answer `verdict`.
    spec fn may_answer(&self, candidate: CandidateView, verdict: Result<(), ViolationView>) -> bool;

    /// The answer of the check for the candidate's kind, if there is one.
    fn answer(&self, ctx: &GateCtx<'_>) -> (r: Option<Result<(), SchemaViolation>>)
        ensures
            match r {
                Some(verdict) => self.covers(ctx@.kind) && self.may_answer(
                    ctx@,
                    verdict_view(verdict),
                ),
                None => !self.covers(ctx@.kind),
            },
    ;
}

/// No checks.
pub struct NoChecks;

impl KindTable for NoChecks {
    open spec fn covers(&self, kind: Seq<char>) -> bool {
        false
    }

    open spec fn may_answer(
        &self,
        candidate: CandidateView,
        verdict: Result<(), ViolationView>,
    ) -> bool {
        false
    }

    fn answer(&self, ctx: &GateCtx<'_>) -> (r: Option<Result<(), SchemaViolation>>) {
        None
    }
}

/// A check for one kind, in front of the checks that were there before.
pub struct WithCheck<
    F: Fn(&GateCtx<'_>) -> Result<(), SchemaViolation> + Send + Sync,
    T: KindTable,
> {
    kind: String,
    gate: FnGate<F>,
    earlier: T,
}

impl<
    F: Fn(&GateCtx<'_>) -> Result<(), SchemaViolation> + Send + Sync,
    T: KindTable,
> WithCheck<F, T> {
    /// The kind that the check in front is for.
    pub closed spec fn kind(&self) -> Seq<char> {
        self.kind@
    }

    /// The check in front.
    pub closed spec fn check(&self) -> F {
        self.gate.check()
    }

    /// The checks that were there before.
    pub closed spec fn earlier(&self) -> T {
        self.earlier
    }
}

impl<
    F: Fn(&GateCtx<'_>) -> Result<(), SchemaViolation> + Send + Sync,
    T: KindTable,
> KindTable for WithCheck<F, T> {
    open spec fn covers(&self, kind: Seq<char>) -> bool {
        kind == self.kind() || self.earlier().covers(kind)
    }

    open spec fn may_answer(
        &self,
        candidate: CandidateView,
        verdict: Result<(), ViolationView>,
    ) -> bool {
        if candidate.kind == self.kind() {
            check_may_answer(self.check(), candidate, verdict)
        } else {
            self.earlier().may_answer(candidate, verdict)
        }
    }

    fn answer(&self, ctx: &GateCtx<'_>) -> (r: Option<Result<(), SchemaViolation>>) {
        if same_text(ctx.kind, self.kind.as_str()) {
            Some(self.gate.validate(ctx))
        } else {
            self.earlier.answer(ctx)
        }
    }
}

/// A gate with a check for each kind of event.
///
/// A kind without a check goes to the fallback, and passes where there is none.
/// No kind is special: a check or a fallback that turns down the kind that
/// reverts are written with keeps reverts from being written.
pub struct KindGate<T: KindTable, B: SchemaGate> {
    checks: T,
    rest: B,
}

impl<T: KindTable, B: SchemaGate> KindGate<T, B> {
    /// The checks by kind.
    pub closed spec fn checks(&self) -> T {
        self.checks
    }

    /// What answers for the kinds that have no check.
    pub closed spec fn rest(&self) -> B {
        self.rest
    }
}

impl KindGate<NoChecks, PassAll> {
    /// A gate that every kind passes.
    pub fn new() -> (r: Self)
        ensures
            forall|kind: Seq<char>| !#[trigger] r.checks().covers(kind),
            forall|candidate: CandidateView, verdict: Result<(), ViolationView>| #[trigger]
                r.may_answer(candidate, verdict) == (verdict is Ok),
    {
        KindGate { checks: NoChecks, rest: PassAll }
    }
}

impl Default for KindGate<NoChecks, PassAll> {
    fn default() -> (r: Self)
        ensures
            forall|kind: Seq<char>| !#[trigger] r.checks().covers(kind),
            forall|candidate: CandidateView, verdict: Result<(), ViolationView>| #[trigger]
                r.may_answer(candidate, verdict) == (verdict is Ok),
    {
        KindGate::new()
    }
}

impl<T: KindTable, B: SchemaGate> KindGate<T, B> {
    /// Let `validator` check the events of kind `kind`, in place of any check
    /// that the kind had.
    pub fn on<K: IntoText, F>(self, kind: K, validator: F) -> (r: KindGate<WithCheck<F, T>, B>) where
        F: Fn(&GateCtx<'_>) -> Result<(), SchemaViolation> + Send + Sync,

        requires
            forall|ctx: &GateCtx<'_>| call_requires(validator, (ctx,)),
        ensures
            r.checks().kind() == kind.text(),
            r.checks().check() == validator,
            r.checks().earlier() == self.checks(),
            r.rest() == self.rest(),
            forall|candidate: CandidateView, verdict: Result<(), ViolationView>| #[trigger]
                r.may_answer(candidate, verdict) == if candidate.kind == kind.text() {
                    check_may_answer(validator, candidate, verdict)
                } else {
                    self.may_answer(candidate, verdict)
                },
    {
        KindGate {
            checks: WithCheck {
                kind: kind.into_text(),
                gate: FnGate { check: validator },
                earlier: self.checks,
            },
            rest: self.rest,
        }
    }

    /// Let `validator` check the events of every kind that has no check.
    pub fn fallback<F>(self, validator: F) -> (r: KindGate<T, FnGate<F>>) where
        F: Fn(&GateCtx<'_>) -> Result<(), SchemaViolation> + Send + Sync,

        requires
            forall|ctx: &GateCtx<'_>| call_requires(validator, (ctx,)),
        ensures
            r.checks() == self.checks(),
            r.rest().check() == validator,
            forall|candidate: CandidateView, verdict: Result<(), ViolationView>| #[trigger]
                r.may_answer(candidate, verdict) == if self.checks().covers(candidate.kind) {
                    self.may_answer(candidate, verdict)
                } else {
                    check_may_answer(validator, candidate, verdict)
                },
    {
        KindGate { checks: self.checks, rest: FnGate { check: validator } }
    }
}

impl<T: KindTable, B: SchemaGate> SchemaGate for KindGate<T, B> {
    /// The check of the kind answers; without one, the fallback.
    open spec fn may_answer(
        &self,
        candidate: CandidateView,
        verdict: Result<(), ViolationView>,
    ) -> bool {
        if self.checks().covers(candidate.kind) {
            self.checks().may_answer(candidate, verdict)
        } else {
            self.rest().may_answer(candidate, verdict)
        }
    }

    fn validate(&self, ctx: &GateCtx<'_>) -> (r: Result<(), SchemaViolation>) {
        match self.checks.answer(ctx) {
            Some(verdict) => verdict,
            None => self.rest.validate(ctx),
        }
    }
}

/// A kind that was given two checks is checked by the later one alone.
pub proof fn later_check_wins<F, G, T: KindTable>(
    table: WithCheck<G, WithCheck<F, T>>,
    candidate: CandidateView,
    verdict: Result<(), ViolationView>,
) where
    F: Fn(&GateCtx<'_>) -> Result<(), SchemaViolation> + Send + Sync,
    G: Fn(&GateCtx<'_>) -> Result<(), SchemaViolation> + Send + Sync,

    requires
        table.kind() == table.earlier().kind(),
        candidate.kind == table.kind(),
    ensures
        table.may_answer(candidate, verdict) == check_may_answer(
            table.check(),
            candidate,
            verdict,
        ),
{
}

/// Whether returning `r` is answering `verdict`: to pass, or to name the violation.
pub open spec fn answers(
    r: Result<(), SchemaViolation>,
    verdict: Result<(), ViolationView>,
) -> bool {
    match verdict {
        Ok(_) => r is Ok,
        Err(violation) => r matches Err(found) && found@ == violation,
    }
}

/// No kind is special: a check that is put in front decides on every candidate of
/// its kind, whatever the kind is, and what it answers is what calling it with
/// that candidate may return. A candidate of any other kind is answered as before.
pub proof fn a_check_decides_on_its_kind<F, T: KindTable, B: SchemaGate>(
    gate: KindGate<WithCheck<F, T>, B>,
    before: KindGate<T, B>,
    candidate: CandidateView,
    verdict: Result<(), ViolationView>,
) where F: Fn(&GateCtx<'_>) -> Result<(), SchemaViolation> + Send + Sync,
    requires
        gate.checks().earlier() == before.checks(),
        gate.rest() == before.rest(),
    ensures
        candidate.kind == gate.checks().kind() ==> (gate.may_answer(candidate, verdict) <==> exists|
            ctx: &GateCtx<'_>,
            r: Result<(), SchemaViolation>,
        |
            ctx@ == candidate && answers(r, verdict) && #[trigger] call_ensures(gate.checks().check(), (ctx,), r)),
        candidate.kind != gate.checks().kind() ==> gate.may_answer(candidate, verdict)
            == before.may_answer(candidate, verdict),
        gate.checks().covers(candidate.kind) <==> candidate.kind == gate.checks().kind()
            || before.checks().covers(candidate.kind),
{
    let check = gate.checks().check();
    if candidate.kind == gate.checks().kind() {
        if gate.may_answer(candidate, verdict) {
            let (ctx, r) = choose|ctx: &GateCtx<'_>, r: Result<(), SchemaViolation>|
                ctx@ == candidate && verdict_view(r) == verdict && #[trigger] call_ensures(
                    check,
                    (ctx,),
                    r,
                );
            assert(call_ensures(check, (ctx,), r));
        }
        if exists|ctx: &GateCtx<'_>, r: Result<(), SchemaViolation>|
            ctx@ == candidate && answers(r, verdict) && #[trigger] call_ensures(check, (ctx,), r) {
            let (ctx, r) = choose|ctx: &GateCtx<'_>, r: Result<(), SchemaViolation>|
                ctx@ == candidate && answers(r, verdict) && #[trigger] call_ensures(
                    check,
                    (ctx,),
                    r,
                );
            match verdict {
                Ok(unit) => assert(unit == ()),
                Err(_) => {},
            }
            assert(verdict_view(r) == verdict);
            assert(check_may_answer(check, candidate, verdict));
        }
    }
}

/// A fallback decides on every candidate of a kind that has no check, whatever the
/// kind is, and what it answers is what calling it with that candidate may return.
/// A candidate of any other kind is answered as before.
pub proof fn a_fallback_decides_on_the_rest<F, T: KindTable, B: SchemaGate>(
    gate: KindGate<T, FnGate<F>>,
    before: KindGate<T, B>,
    candidate: CandidateView,
    verdict: Result<(), ViolationView>,
) where F: Fn(&GateCtx<'_>) -> Result<(), SchemaViolation> + Send + Sync,
    requires
        gate.checks() == before.checks(),
    ensures
        !before.checks().covers(candidate.kind) ==> (gate.may_answer(candidate, verdict)
            <==> exists|ctx: &GateCtx<'_>, r: Result<(), SchemaViolation>|
            ctx@ == candidate && answers(r, verdict) && #[trigger] call_ensures(gate.rest().check(), (ctx,), r)),
        before.checks().covers(candidate.kind) ==> gate.may_answer(candidate, verdict)
            == before.may_answer(candidate, verdict),
{
    let check = gate.rest().check();
    if !before.checks().covers(candidate.kind) && gate.may_answer(candidate, verdict) {
        let (ctx, r) = choose|ctx: &GateCtx<'_>, r: Result<(), SchemaViolation>|
            ctx@ == candidate && verdict_view(r) == verdict && #[trigger] call_ensures(
                check,
                (ctx,),
                r,
            );
        assert(call_ensures(check, (ctx,), r));
    }
    if !before.checks().covers(candidate.kind) && exists|
        ctx: &GateCtx<'_>,
        r: Result<(), SchemaViolation>,
    |
        ctx@ == candidate && answers(r, verdict) && #[trigger] call_ensures(check, (ctx,), r) {
        let (ctx, r) = choose|ctx: &GateCtx<'_>, r: Result<(), SchemaViolation>|
            ctx@ == candidate && answers(r, verdict) && #[trigger] call_ensures(check, (ctx,), r);
        match verdict {
            Ok(unit) => assert(unit == ()),
            Err(_) => {},
        }
        assert(verdict_view(r) == verdict);
        assert(check_may_answer(check, candidate, verdict));
    }
}

/// A kind without a check passes where there is no fallback.
pub proof fn uncovered_kind_passes<T: KindTable>(
    gate: KindGate<T, PassAll>,
    candidate: CandidateView,
    verdict: Result<(), ViolationView>,
)
    requires
        !gate.checks().covers(candidate.kind),
        gate.may_answer(candidate, verdict),
    ensures
        verdict is Ok,
{
}

/// Everything passes [`PassAll`], and a check that is made of a function answers as the
/// function does.
pub proof fn a_function_answers_for_its_gate<
    F: Fn(&GateCtx<'_>) -> Result<(), SchemaViolation> + Send + Sync,
>(pass: PassAll, gate: FnGate<F>, candidate: CandidateView, verdict: Result<(), ViolationView>)
    ensures
        pass.may_answer(candidate, verdict) <==> verdict is Ok,
        gate.may_answer(candidate, verdict) <==> exists|
            ctx: &GateCtx<'_>,
            r: Result<(), SchemaViolation>,
        |
            ctx@ == candidate && verdict_view(r) == verdict && #[trigger] call_ensures(
                gate.check(),
                (ctx,),
                r,
            ),
{
}

} // verus!
