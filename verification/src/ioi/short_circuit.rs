//! Which test cases need not be run, once some have failed.

use vstd::prelude::*;

use crate::ids::has_id;
use crate::ioi::config::{SubtaskDef, SubtaskScoringMethod};
use crate::ioi::subtasks::names_case;
use crate::judging::{RawClass, TestCaseRow};
use crate::ioi::subtasks;
use crate::judging;

verus! {

/// Whether a result settles a subtask at nothing.
pub open spec fn fails(method: SubtaskScoringMethod, class: RawClass) -> bool {
    match method {
        SubtaskScoringMethod::GroupMin => !(class is Full),
        SubtaskScoringMethod::GroupMul => class is Zero,
        SubtaskScoringMethod::Sum => false,
    }
}

/// Whether a subtask can be settled before all its cases have run.
pub open spec fn can_stop(method: SubtaskScoringMethod) -> bool {
    !(method is Sum)
}

fn result_fails(method: SubtaskScoringMethod, class: RawClass) -> (r: bool)
    ensures
        r == fails(method, class),
{
    match method {
        SubtaskScoringMethod::GroupMin => class != RawClass::Full,
        SubtaskScoringMethod::GroupMul => class == RawClass::Zero,
        SubtaskScoringMethod::Sum => false,
    }
}

/// The state of the subtasks while a submission is evaluated.
#[derive(Debug, Clone, PartialEq, Eq)]
pub struct SubtaskShortCircuit {
    pub methods: Vec<SubtaskScoringMethod>,
    /// The cases of each subtask.
    pub members: Vec<Vec<i32>>,
    /// Which subtasks are settled at nothing.
    pub failed: Vec<bool>,
    /// The cases that have run or were cancelled.
    pub gone: Vec<i32>,
    pub samples: Vec<i32>,
    pub order: Vec<i32>,
}

impl SubtaskShortCircuit {
    pub open spec fn wf(self) -> bool {
        self.methods@.len() == self.members@.len() == self.failed@.len()
    }

    /// Whether subtask `k` needs the case.
    pub open spec fn needed_by(self, k: int, id: i32) -> bool {
        0 <= k < self.members@.len() && self.members@[k]@.contains(id)
    }

    /// Whether the result of a case settles one of its subtasks.
    pub open spec fn settles(self, id: i32, class: RawClass) -> bool {
        exists|k: int| #[trigger] self.needed_by(k, id) && fails(self.methods@[k], class)
    }

    /// The settled subtasks after this result.
    pub open spec fn failed_after(self, id: i32, class: RawClass) -> Seq<bool> {
        Seq::new(
            self.failed@.len(),
            |k: int|
                self.failed@[k] || (self.needed_by(k, id) && fails(self.methods@[k], class)),
        )
    }

    /// Whether a case can be dropped after `trigger` failed: it waits, is no
    /// sample, belongs to a group of the failed case, and only settled groups
    /// need it.
    pub open spec fn releasable(self, failed: Seq<bool>, trigger: i32, id: i32) -> bool {
        &&& !self.gone@.contains(id)
        &&& !self.samples@.contains(id)
        &&& exists|k: int| #[trigger]
            self.needed_by(k, id) && self.needed_by(k, trigger) && can_stop(self.methods@[k])
        &&& forall|k: int| #[trigger]
            self.needed_by(k, id) ==> can_stop(self.methods@[k]) && failed[k]
    }

    /// Those of `order` that can be dropped and are not recorded, in order.
    pub open spec fn released(
        self,
        order: Seq<i32>,
        failed: Seq<bool>,
        trigger: i32,
        recorded: Seq<i32>,
    ) -> Seq<i32>
        decreases order.len(),
    {
        if order.len() == 0 {
            seq![]
        } else {
            let rest = self.released(order.drop_last(), failed, trigger, recorded);
            if self.releasable(failed, trigger, order.last()) && !recorded.contains(order.last()) {
                rest.push(order.last())
            } else {
                rest
            }
        }
    }

    /// The state at the start.
    pub open spec fn starts<S>(
        self,
        defs: Seq<SubtaskDef<S>>,
        cases: Seq<TestCaseRow<S>>,
    ) -> bool {
        &&& self.wf()
        &&& self.methods@.len() == defs.len()
        &&& forall|k: int|
            0 <= k < defs.len() ==> #[trigger] self.methods@[k] == defs[k].scoring_method
        &&& forall|k: int| 0 <= k < defs.len() ==> !(#[trigger] self.failed@[k])
        &&& forall|k: int, id: i32|
            0 <= k < defs.len() ==> (#[trigger] self.needed_by(k, id) <==> exists|i: int|
                0 <= i < cases.len() && (#[trigger] cases[i]).id == id && subtasks::named_in(
                    defs[k],
                    cases[i],
                ))
        &&& self.gone@.len() == 0
        &&& forall|id: i32| #[trigger]
            self.samples@.contains(id) <==> exists|i: int|
                0 <= i < cases.len() && (#[trigger] cases[i]).id == id && cases[i].is_sample
        &&& self.order@ == judging::case_ids(cases)
    }

    pub fn new<S: Copy>(subtask_defs: &Vec<SubtaskDef<S>>, test_cases: &Vec<TestCaseRow<S>>) -> (r:
        Self)
        ensures
            r.starts(subtask_defs@, test_cases@),
    {
        let mut methods: Vec<SubtaskScoringMethod> = Vec::new();
        let mut members: Vec<Vec<i32>> = Vec::new();
        let mut failed: Vec<bool> = Vec::new();
        let mut k: usize = 0;
        while k < subtask_defs.len()
            invariant
                k <= subtask_defs@.len(),
                methods@.len() == k,
                members@.len() == k,
                failed@.len() == k,
                forall|j: int|
                    0 <= j < k ==> #[trigger] methods@[j] == subtask_defs@[j].scoring_method,
                forall|j: int| 0 <= j < k ==> !(#[trigger] failed@[j]),
                forall|j: int, id: i32|
                    0 <= j < k ==> (#[trigger] members@[j]@.contains(id) <==> exists|i: int|
                        0 <= i < test_cases@.len() && (#[trigger] test_cases@[i]).id == id
                            && subtasks::named_in(subtask_defs@[j], test_cases@[i])),
            decreases subtask_defs@.len() - k,
        {
            let ids = member_ids(&subtask_defs[k], test_cases);
            methods.push(subtask_defs[k].scoring_method);
            members.push(ids);
            failed.push(false);
            k += 1;
        }
        let mut samples: Vec<i32> = Vec::new();
        let mut order: Vec<i32> = Vec::new();
        let mut i: usize = 0;
        while i < test_cases.len()
            invariant
                i <= test_cases@.len(),
                order@ == judging::case_ids(test_cases@).take(i as int),
                forall|id: i32| #[trigger]
                    samples@.contains(id) <==> exists|j: int|
                        0 <= j < i && (#[trigger] test_cases@[j]).id == id
                            && test_cases@[j].is_sample,
            decreases test_cases@.len() - i,
        {
            let ghost before = samples@;
            let id: i32 = test_cases[i].id;
            order.push(id);
            assert(order@ =~= judging::case_ids(test_cases@).take(i as int + 1));
            if test_cases[i].is_sample {
                samples.push(id);
            }
            proof {
                assert forall|x: i32| #[trigger] samples@.contains(x) <==> exists|j: int|
                    0 <= j < i + 1 && (#[trigger] test_cases@[j]).id == x
                        && test_cases@[j].is_sample by {
                    assert(before.contains(x) <==> exists|j: int|
                        0 <= j < i && (#[trigger] test_cases@[j]).id == x
                            && test_cases@[j].is_sample);
                    lemma_push_contains(before, id, x);
                    if test_cases@[i as int].is_sample && x == id {
                        assert(test_cases@[i as int].id == x);
                    }
                }
            }
            i += 1;
        }
        assert(judging::case_ids(test_cases@).take(i as int) =~= judging::case_ids(test_cases@));
        let r = SubtaskShortCircuit { methods, members, failed, gone: Vec::new(), samples, order };
        assert forall|j: int, id: i32| 0 <= j < subtask_defs@.len() implies (#[trigger] r.needed_by(
            j,
            id,
        ) <==> exists|i: int|
            0 <= i < test_cases@.len() && (#[trigger] test_cases@[i]).id == id && subtasks::named_in(
                subtask_defs@[j],
                test_cases@[i],
            )) by {
            assert(r.members@[j]@.contains(id) == r.needed_by(j, id));
        }
        r
    }

    fn needs(&self, k: usize, id: i32) -> (r: bool)
        requires
            k < self.members@.len(),
        ensures
            r == self.needed_by(k as int, id),
    {
        has_id(&self.members[k], id)
    }

    fn can_release(&self, failed: &Vec<bool>, trigger: i32, id: i32) -> (r: bool)
        requires
            self.wf(),
            failed@.len() == self.failed@.len(),
        ensures
            r == self.releasable(failed@, trigger, id),
    {
        if has_id(&self.gone, id) || has_id(&self.samples, id) {
            return false;
        }
        let mut shared = false;
        let mut k: usize = 0;
        while k < self.members.len()
            invariant
                self.wf(),
                failed@.len() == self.failed@.len(),
                k <= self.members@.len(),
                shared == (exists|j: int|
                    j < k && #[trigger] self.needed_by(j, id) && self.needed_by(j, trigger)
                        && can_stop(self.methods@[j])),
                forall|j: int|
                    j < k && #[trigger] self.needed_by(j, id) ==> can_stop(self.methods@[j])
                        && failed@[j],
            decreases self.members@.len() - k,
        {
            if self.needs(k, id) {
                if self.methods[k] == SubtaskScoringMethod::Sum || !failed[k] {
                    assert(self.needed_by(k as int, id));
                    return false;
                }
                if self.needs(k, trigger) {
                    assert(self.needed_by(k as int, id));
                    shared = true;
                }
            }
            k += 1;
        }
        if shared {
            let ghost j = choose|j: int|
                j < k && #[trigger] self.needed_by(j, id) && self.needed_by(j, trigger) && can_stop(
                    self.methods@[j],
                );
            assert(self.needed_by(j, id));
        }
        shared
    }

    fn release(&self, failed: &Vec<bool>, trigger: i32, recorded: &Vec<i32>) -> (r: Vec<i32>)
        requires
            self.wf(),
            failed@.len() == self.failed@.len(),
        ensures
            r@ == self.released(self.order@, failed@, trigger, recorded@),
    {
        let mut out: Vec<i32> = Vec::new();
        let mut i: usize = 0;
        assert(self.order@.take(0) =~= Seq::<i32>::empty());
        while i < self.order.len()
            invariant
                self.wf(),
                failed@.len() == self.failed@.len(),
                i <= self.order@.len(),
                out@ == self.released(self.order@.take(i as int), failed@, trigger, recorded@),
            decreases self.order@.len() - i,
        {
            let id: i32 = self.order[i];
            assert(self.order@.take(i as int + 1).drop_last() =~= self.order@.take(i as int));
            assert(self.order@.take(i as int + 1).last() == id);
            if self.can_release(failed, trigger, id) && !has_id(recorded, id) {
                out.push(id);
            }
            i += 1;
        }
        assert(self.order@.take(i as int) =~= self.order@);
        out
    }

    /// The settled subtasks after this result, and whether it settles any.
    fn settle(&self, id: i32, class: RawClass) -> (r: (Vec<bool>, bool))
        requires
            self.wf(),
        ensures
            r.0@ == self.failed_after(id, class),
            r.1 == self.settles(id, class),
    {
        let mut failed: Vec<bool> = Vec::new();
        let mut any = false;
        let mut k: usize = 0;
        while k < self.members.len()
            invariant
                self.wf(),
                k <= self.members@.len(),
                failed@ == self.failed_after(id, class).take(k as int),
                any == (exists|j: int|
                    j < k && #[trigger] self.needed_by(j, id) && fails(self.methods@[j], class)),
            decreases self.members@.len() - k,
        {
            let here = self.needs(k, id) && result_fails(self.methods[k], class);
            if here {
                assert(self.needed_by(k as int, id));
                any = true;
            }
            failed.push(self.failed[k] || here);
            assert(failed@ =~= self.failed_after(id, class).take(k as int + 1));
            k += 1;
        }
        assert(self.failed_after(id, class).take(k as int) =~= self.failed_after(id, class));
        if any {
            let ghost j = choose|j: int|
                j < k && #[trigger] self.needed_by(j, id) && fails(self.methods@[j], class);
            assert(self.needed_by(j, id));
        }
        (failed, any)
    }

    /// Whether another case may be started before the result of this one is
    /// taken in: not while that may drop cases.
    pub fn should_refill_after(&self, test_case_id: i32, class: RawClass) -> (r: bool)
        requires
            self.wf(),
        ensures
            r == (!self.settles(test_case_id, class) || self.released(
                self.order@,
                self.failed_after(test_case_id, class),
                test_case_id,
                seq![],
            ).len() == 0),
    {
        let (failed, any) = self.settle(test_case_id, class);
        if !any {
            return true;
        }
        let none: Vec<i32> = Vec::new();
        assert(none@ =~= seq![]);
        self.release(&failed, test_case_id, &none).len() == 0
    }

    /// Takes in the result of a case; gives the cases that need not run.
    pub fn cancellable_after(
        &mut self,
        test_case_id: i32,
        class: RawClass,
        already_recorded: &Vec<i32>,
    ) -> (r: Vec<i32>)
        requires
            old(self).wf(),
        ensures
            final(self).wf(),
            final(self).methods == old(self).methods,
            final(self).members == old(self).members,
            final(self).samples == old(self).samples,
            final(self).order == old(self).order,
            final(self).gone@ == old(self).gone@.push(test_case_id),
            final(self).failed@ == old(self).failed_after(test_case_id, class),
            r@ == (if old(self).settles(test_case_id, class) {
                final(self).released(
                    final(self).order@,
                    final(self).failed@,
                    test_case_id,
                    already_recorded@,
                )
            } else {
                seq![]
            }),
    {
        let (failed, any) = self.settle(test_case_id, class);
        self.gone.push(test_case_id);
        if !any {
            proof {
                assert forall|k: int| 0 <= k < self.failed@.len() implies #[trigger] self.failed@[k]
                    == old(self).failed_after(test_case_id, class)[k] by {
                    if old(self).needed_by(k, test_case_id) {
                        assert(!fails(old(self).methods@[k], class));
                    }
                }
                assert(self.failed@ =~= old(self).failed_after(test_case_id, class));
            }
            let r: Vec<i32> = Vec::new();
            assert(r@ =~= seq![]);
            return r;
        }
        let r = self.release(&failed, test_case_id, already_recorded);
        let ghost before = *self;
        self.failed = failed;
        proof {
            lemma_released_depends(
                before,
                *self,
                self.order@,
                failed@,
                test_case_id,
                already_recorded@,
            );
        }
        r
    }

    /// These cases will not run.
    pub fn mark_cancelled(&mut self, test_case_ids: &Vec<i32>)
        requires
            old(self).wf(),
        ensures
            final(self).wf(),
            final(self).methods == old(self).methods,
            final(self).members == old(self).members,
            final(self).failed == old(self).failed,
            final(self).samples == old(self).samples,
            final(self).order == old(self).order,
            final(self).gone@ == old(self).gone@ + test_case_ids@,
    {
        let ghost before = self.gone@;
        let mut i: usize = 0;
        assert(before + test_case_ids@.take(0) =~= before);
        while i < test_case_ids.len()
            invariant
                i <= test_case_ids@.len(),
                self.gone@ == before + test_case_ids@.take(i as int),
                self.wf(),
                self.methods == old(self).methods,
                self.members == old(self).members,
                self.failed == old(self).failed,
                self.samples == old(self).samples,
                self.order == old(self).order,
            decreases test_case_ids@.len() - i,
        {
            self.gone.push(test_case_ids[i]);
            assert(self.gone@ =~= before + test_case_ids@.take(i as int + 1));
            i += 1;
        }
        assert(test_case_ids@.take(i as int) =~= test_case_ids@);
    }
}

proof fn lemma_push_contains(s: Seq<i32>, y: i32, x: i32)
    ensures
        s.push(y).contains(x) <==> s.contains(x) || x == y,
{
    if s.contains(x) {
        let i = choose|i: int| 0 <= i < s.len() && s[i] == x;
        assert(s.push(y)[i] == x);
    }
    assert(s.push(y)[s.len() as int] == y);
    if s.push(y).contains(x) && x != y {
        let i = choose|i: int| 0 <= i < s.push(y).len() && s.push(y)[i] == x;
        assert(s[i] == x);
    }
}

/// The ids of the cases that a subtask names.
fn member_ids<S>(def: &SubtaskDef<S>, test_cases: &Vec<TestCaseRow<S>>) -> (r: Vec<i32>)
    ensures
        forall|id: i32| #[trigger]
            r@.contains(id) <==> exists|i: int|
                0 <= i < test_cases@.len() && (#[trigger] test_cases@[i]).id == id
                    && subtasks::named_in(
                    *def,
                    test_cases@[i],
                ),
{
    let mut ids: Vec<i32> = Vec::new();
    let mut i: usize = 0;
    while i < test_cases.len()
        invariant
            i <= test_cases@.len(),
            forall|id: i32| #[trigger]
                ids@.contains(id) <==> exists|j: int|
                    0 <= j < i && (#[trigger] test_cases@[j]).id == id && subtasks::named_in(
                        *def,
                        test_cases@[j],
                    ),
        decreases test_cases@.len() - i,
    {
        let ghost before = ids@;
        let id: i32 = test_cases[i].id;
        if names_case(def, &test_cases[i]) {
            ids.push(id);
        }
        proof {
            assert forall|x: i32| #[trigger] ids@.contains(x) <==> exists|j: int|
                0 <= j < i + 1 && (#[trigger] test_cases@[j]).id == x && subtasks::named_in(
                    *def,
                    test_cases@[j],
                ) by {
                assert(before.contains(x) <==> exists|j: int|
                    0 <= j < i && (#[trigger] test_cases@[j]).id == x && subtasks::named_in(
                        *def,
                        test_cases@[j],
                    ));
                lemma_push_contains(before, id, x);
                if subtasks::named_in(*def, test_cases@[i as int]) && x == id {
                    assert(test_cases@[i as int].id == x);
                }
            }
        }
        i += 1;
    }
    ids
}

/// What is released does not depend on which subtasks the state says failed.
proof fn lemma_released_depends(
    a: SubtaskShortCircuit,
    b: SubtaskShortCircuit,
    order: Seq<i32>,
    failed: Seq<bool>,
    trigger: i32,
    recorded: Seq<i32>,
)
    requires
        a.methods == b.methods,
        a.members == b.members,
        a.gone == b.gone,
        a.samples == b.samples,
    ensures
        a.released(order, failed, trigger, recorded) == b.released(
            order,
            failed,
            trigger,
            recorded,
        ),
    decreases order.len(),
{
    if order.len() > 0 {
        lemma_released_depends(a, b, order.drop_last(), failed, trigger, recorded);
        let id = order.last();
        assert(forall|k: int, x: i32| a.needed_by(k, x) == #[trigger] b.needed_by(k, x));
        assert(a.releasable(failed, trigger, id) == b.releasable(failed, trigger, id)) by {
            if a.releasable(failed, trigger, id) {
                let k = choose|k: int| #[trigger]
                    a.needed_by(k, id) && a.needed_by(k, trigger) && can_stop(a.methods@[k]);
                assert(b.needed_by(k, id));
                assert forall|k: int| #[trigger] b.needed_by(k, id) implies can_stop(b.methods@[k])
                    && failed[k] by {
                    assert(a.needed_by(k, id));
                }
            }
            if b.releasable(failed, trigger, id) {
                let k = choose|k: int| #[trigger]
                    b.needed_by(k, id) && b.needed_by(k, trigger) && can_stop(b.methods@[k]);
                assert(a.needed_by(k, id));
                assert forall|k: int| #[trigger] a.needed_by(k, id) implies can_stop(a.methods@[k])
                    && failed[k] by {
                    assert(b.needed_by(k, id));
                }
            }
        }
    }
}

// ---------------------------------------------------------------------------
// Laws
// ---------------------------------------------------------------------------

/// A dropped case is no sample, has neither run nor been recorded, and every
/// subtask that needs it is settled at nothing; a subtask that adds up its
/// cases never loses one.
pub proof fn dropped_cases_are_not_needed(
    sc: SubtaskShortCircuit,
    order: Seq<i32>,
    failed: Seq<bool>,
    trigger: i32,
    recorded: Seq<i32>,
    i: int,
)
    requires
        0 <= i < sc.released(order, failed, trigger, recorded).len(),
    ensures
        ({
            let id = sc.released(order, failed, trigger, recorded)[i];
            &&& order.contains(id)
            &&& !sc.samples@.contains(id)
            &&& !sc.gone@.contains(id)
            &&& !recorded.contains(id)
            &&& forall|k: int| #[trigger]
                sc.needed_by(k, id) ==> failed[k] && !(sc.methods@[k] is Sum)
        }),
    decreases order.len(),
{
    let rest = sc.released(order.drop_last(), failed, trigger, recorded);
    if i < rest.len() {
        dropped_cases_are_not_needed(sc, order.drop_last(), failed, trigger, recorded, i);
        let id = rest[i];
        let j = choose|j: int| 0 <= j < order.drop_last().len() && order.drop_last()[j] == id;
        assert(order[j] == id);
    } else {
        assert(order[order.len() - 1] == order.last());
    }
}

/// Every waiting case that only settled groups need, one of them with the
/// failed case, is dropped.
pub proof fn needless_cases_are_dropped(
    sc: SubtaskShortCircuit,
    order: Seq<i32>,
    failed: Seq<bool>,
    trigger: i32,
    recorded: Seq<i32>,
    i: int,
)
    requires
        0 <= i < order.len(),
        sc.releasable(failed, trigger, order[i]),
        !recorded.contains(order[i]),
    ensures
        sc.released(order, failed, trigger, recorded).contains(order[i]),
    decreases order.len(),
{
    let rest = sc.released(order.drop_last(), failed, trigger, recorded);
    let all = sc.released(order, failed, trigger, recorded);
    if i < order.len() - 1 {
        needless_cases_are_dropped(sc, order.drop_last(), failed, trigger, recorded, i);
        let j = choose|j: int| 0 <= j < rest.len() && rest[j] == order[i];
        assert(all[j] == order[i]);
    } else {
        assert(all[rest.len() as int] == order[i]);
    }
}

/// A subtask that is settled stays settled.
pub proof fn settled_stays_settled(sc: SubtaskShortCircuit, id: i32, class: RawClass, k: int)
    requires
        0 <= k < sc.failed@.len(),
        sc.failed@[k],
    ensures
        sc.failed_after(id, class)[k],
{
}

} // verus!
