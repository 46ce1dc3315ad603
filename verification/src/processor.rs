//! Grouping the endpoints' answers and deciding whether they agree.
//!
//! The answers are split into successes and failures, the successes are
//! grouped by the finalized block root they report, and the quorum rule
//! names the grouping canonical, conflicting, or neither.

use vstd::prelude::*;
use vstd::string::*;

use crate::client::{ResponsePayloadWithEndpointInfo, ResponsePayloadWithEndpointInfoView};
use crate::errors::{AppError, AppErrorView};
use crate::groups::{lemma_of_push, lemma_of_wf, RootGroupsView, SuccessPayloadView};
pub use crate::groups::{RootGroups, SuccessPayload};

verus! {

/// The error an endpoint met, together with the endpoint.
#[derive(Debug)]
pub struct FailurePayload {
    pub payload: AppError,
    pub endpoint: String,
}

/// The mathematical value of a [`FailurePayload`].
pub struct FailurePayloadView {
    pub payload: AppErrorView,
    pub endpoint: Seq<char>,
}

impl View for FailurePayload {
    type V = FailurePayloadView;

    open spec fn view(&self) -> FailurePayloadView {
        FailurePayloadView { payload: self.payload@, endpoint: self.endpoint@ }
    }
}

/// The values of a list of failures, in the same order.
pub open spec fn failure_views(items: Seq<FailurePayload>) -> Seq<FailurePayloadView> {
    items.map_values(|f: FailurePayload| f@)
}

/// The values of a list of outcomes, in the same order.
pub open spec fn outcome_views(items: Seq<ResponsePayloadWithEndpointInfo>) -> Seq<
    ResponsePayloadWithEndpointInfoView,
> {
    items.map_values(|o: ResponsePayloadWithEndpointInfo| o@)
}

/// The success that an outcome holds, if it holds one.
pub open spec fn success_of(o: ResponsePayloadWithEndpointInfoView) -> Option<SuccessPayloadView> {
    match o.payload {
        Ok(p) => Some(SuccessPayloadView { payload: p, endpoint: o.endpoint }),
        Err(_) => None,
    }
}

/// The failure that an outcome holds, if it holds one.
pub open spec fn failure_of(o: ResponsePayloadWithEndpointInfoView) -> Option<FailurePayloadView> {
    match o.payload {
        Ok(_) => None,
        Err(e) => Some(FailurePayloadView { payload: e, endpoint: o.endpoint }),
    }
}

/// [`success_of`] as a function value.
pub open spec fn pick_success() -> spec_fn(ResponsePayloadWithEndpointInfoView) -> Option<
    SuccessPayloadView,
> {
    |o: ResponsePayloadWithEndpointInfoView| success_of(o)
}

/// [`failure_of`] as a function value.
pub open spec fn pick_failure() -> spec_fn(ResponsePayloadWithEndpointInfoView) -> Option<
    FailurePayloadView,
> {
    |o: ResponsePayloadWithEndpointInfoView| failure_of(o)
}

/// The successes among `outcomes`, in their order.
pub open spec fn successes(outcomes: Seq<ResponsePayloadWithEndpointInfoView>) -> Seq<
    SuccessPayloadView,
> {
    outcomes.filter_map(pick_success())
}

/// The failures among `outcomes`, in their order.
pub open spec fn failures(outcomes: Seq<ResponsePayloadWithEndpointInfoView>) -> Seq<
    FailurePayloadView,
> {
    outcomes.filter_map(pick_failure())
}

/// The outcomes split and the successes grouped by root.
#[derive(Debug)]
pub struct GroupedResult {
    pub success: RootGroups,
    pub failure: Vec<FailurePayload>,
}

/// The mathematical value of a [`GroupedResult`].
pub struct GroupedResultView {
    pub success: RootGroupsView,
    pub failure: Seq<FailurePayloadView>,
}

impl View for GroupedResult {
    type V = GroupedResultView;

    open spec fn view(&self) -> GroupedResultView {
        GroupedResultView { success: self.success@, failure: failure_views(self.failure@) }
    }
}

/// The grouping of `outcomes`: the successes by the root they report, the
/// failures as they came.
pub open spec fn grouped(outcomes: Seq<ResponsePayloadWithEndpointInfoView>) -> GroupedResultView {
    GroupedResultView {
        success: RootGroupsView::of(successes(outcomes)),
        failure: failures(outcomes),
    }
}

/// The classified grouping: at most one of `canonical` and `non_canonical`
/// is present.
#[derive(Debug)]
pub struct DisplayableResult {
    pub canonical: Option<RootGroups>,
    pub non_canonical: Option<RootGroups>,
    pub failure: Vec<FailurePayload>,
}

/// The mathematical value of a [`DisplayableResult`].
pub struct DisplayableResultView {
    pub canonical: Option<RootGroupsView>,
    pub non_canonical: Option<RootGroupsView>,
    pub failure: Seq<FailurePayloadView>,
}

/// The value of a grouping that may be absent.
pub open spec fn groups_view(groups: Option<RootGroups>) -> Option<RootGroupsView> {
    match groups {
        Some(g) => Some(g@),
        None => None,
    }
}

impl View for DisplayableResult {
    type V = DisplayableResultView;

    open spec fn view(&self) -> DisplayableResultView {
        DisplayableResultView {
            canonical: groups_view(self.canonical),
            non_canonical: groups_view(self.non_canonical),
            failure: failure_views(self.failure@),
        }
    }
}

/// The size a group must exceed to count towards a quorum among
/// `group_count` groups: two thirds of the number of groups, rounded down.
pub open spec fn quorum_threshold(group_count: nat) -> nat {
    (2 * group_count) / 3
}

/// The quorum rule. Without successes nothing is classified. One root
/// alone is canonical. Among several roots, the one whose group alone
/// exceeds the threshold is canonical, and the other groups are dropped;
/// where none or more than one exceeds it, all groups are conflicting.
/// The failures pass through.
pub open spec fn classified(g: GroupedResultView) -> DisplayableResultView {
    let count = g.success.groups.dom().len();
    let passed = g.success.above(quorum_threshold(count));
    if count == 0 {
        DisplayableResultView { canonical: None, non_canonical: None, failure: g.failure }
    } else if count == 1 {
        DisplayableResultView {
            canonical: Some(g.success),
            non_canonical: None,
            failure: g.failure,
        }
    } else if passed.groups.dom().len() == 1 {
        DisplayableResultView { canonical: Some(passed), non_canonical: None, failure: g.failure }
    } else {
        DisplayableResultView {
            canonical: None,
            non_canonical: Some(g.success),
            failure: g.failure,
        }
    }
}

/// Splits the outcomes into successes and failures and groups the
/// successes by the finalized block root they report. Inside a group and
/// among the failures the outcomes keep their order.
pub fn group_success_failure(response_payload: Vec<ResponsePayloadWithEndpointInfo>) -> (g:
    GroupedResult)
    ensures
        g@ == grouped(outcome_views(response_payload@)),
        g@.success.wf(),
{
    let ghost outcomes = outcome_views(response_payload@);
    let mut success = RootGroups::new();
    let mut failure: Vec<FailurePayload> = Vec::new();
    proof {
        assert(outcomes.take(0) =~= Seq::empty());
        assert(failure_views(failure@) =~= Seq::empty());
        assert(successes(outcomes.take(0)) =~= Seq::empty());
        assert(RootGroupsView::of(Seq::empty()).groups =~= Map::empty());
    }
    for result in it: response_payload
        invariant
            it.seq() == response_payload@,
            outcomes == outcome_views(response_payload@),
            success@ == RootGroupsView::of(successes(outcomes.take(it.index() as int))),
            failure_views(failure@) == failures(outcomes.take(it.index() as int)),
    {
        let ghost i = it.index() as int;
        let ghost seen = outcomes.take(i);
        proof {
            assert(outcomes[i] == result@);
            outcomes.lemma_filter_map_take_succ(pick_success(), i);
            outcomes.lemma_filter_map_take_succ(pick_failure(), i);
        }
        match result.payload {
            Ok(payload) => {
                let item = SuccessPayload { payload, endpoint: result.endpoint };
                proof {
                    assert(success_of(outcomes[i]) == Some(item@));
                    assert(successes(seen) + seq![item@] =~= successes(seen).push(item@));
                    lemma_of_push(successes(seen), item@);
                }
                success = success.add(item);
            },
            Err(error) => {
                let item = FailurePayload { payload: error, endpoint: result.endpoint };
                let ghost before = failure@;
                failure.push(item);
                proof {
                    assert(failure_of(outcomes[i]) == Some(item@));
                    assert(failure_views(failure@) =~= failure_views(before).push(item@));
                }
            },
        }
    }
    proof {
        assert(outcomes.take(outcomes.len() as int) =~= outcomes);
        lemma_of_wf(successes(outcomes));
    }
    GroupedResult { success, failure }
}

/// Two thirds of `count`, rounded down.
pub fn threshold_for(count: usize) -> (t: usize)
    ensures
        t == quorum_threshold(count as nat),
        t <= count,
{
    let whole = count / 3;
    let rest = count % 3;
    whole * 2 + (rest * 2) / 3
}

/// Applies the quorum rule to a grouping.
pub fn classify(grouped: GroupedResult) -> (d: DisplayableResult)
    ensures
        d@ == classified(grouped@),
        d@.failure == grouped@.failure,
        !(d@.canonical is Some && d@.non_canonical is Some),
{
    let GroupedResult { success, failure } = grouped;
    let ghost g = success@;
    let count = success.len();
    if count == 0 {
        DisplayableResult { canonical: None, non_canonical: None, failure }
    } else if count == 1 {
        DisplayableResult { canonical: Some(success), non_canonical: None, failure }
    } else {
        let threshold = threshold_for(count);
        let places = success.places_above(threshold);
        proof {
            g.lemma_above(threshold as nat);
        }
        if places.len() == 1 {
            let place = places[0];
            proof {
                let passed = g.above(threshold as nat);
                assert(passed.order =~= seq![g.order[place as int]]);
                g.lemma_above_only(threshold as nat, g.order[place as int]);
            }
            let only = success.into_only(place);
            DisplayableResult { canonical: Some(only), non_canonical: None, failure }
        } else {
            DisplayableResult { canonical: None, non_canonical: Some(success), failure }
        }
    }
}

/// Groups the outcomes and applies the quorum rule.
pub fn process_to_displayable_format(response_payload: Vec<ResponsePayloadWithEndpointInfo>) -> (d:
    DisplayableResult)
    ensures
        d@ == classified(grouped(outcome_views(response_payload@))),
        d@.failure == failures(outcome_views(response_payload@)),
        !(d@.canonical is Some && d@.non_canonical is Some),
{
    let grouped_result = group_success_failure(response_payload);
    classify(grouped_result)
}

/// The endpoints of a list of outcomes, in the same order.
pub open spec fn outcome_endpoints(outcomes: Seq<ResponsePayloadWithEndpointInfoView>) -> Seq<
    Seq<char>,
> {
    outcomes.map_values(|o: ResponsePayloadWithEndpointInfoView| o.endpoint)
}

/// The endpoints of a list of successes, in the same order.
pub open spec fn success_endpoints(items: Seq<SuccessPayloadView>) -> Seq<Seq<char>> {
    items.map_values(|p: SuccessPayloadView| p.endpoint)
}

/// The endpoints of a list of failures, in the same order.
pub open spec fn failure_endpoints(items: Seq<FailurePayloadView>) -> Seq<Seq<char>> {
    items.map_values(|f: FailurePayloadView| f.endpoint)
}

/// Splitting conserves the outcomes: every outcome is counted once, as a
/// success or as a failure, and the endpoints of the successes together
/// with those of the failures are the endpoints of the outcomes, each as
/// often as it was asked.
pub proof fn lemma_split_conserves(outcomes: Seq<ResponsePayloadWithEndpointInfoView>)
    ensures
        successes(outcomes).len() + failures(outcomes).len() == outcomes.len(),
        success_endpoints(successes(outcomes)).to_multiset().add(
            failure_endpoints(failures(outcomes)).to_multiset(),
        ) == outcome_endpoints(outcomes).to_multiset(),
    decreases outcomes.len(),
{
    broadcast use vstd::seq_lib::to_multiset_build;

    if outcomes.len() > 0 {
        let rest = outcomes.drop_last();
        let last = outcomes.last();
        lemma_split_conserves(rest);
        assert(outcome_endpoints(outcomes) =~= outcome_endpoints(rest).push(last.endpoint));
        match last.payload {
            Ok(p) => {
                let item = success_of(last).unwrap();
                assert(successes(outcomes) =~= successes(rest).push(item));
                assert(failures(outcomes) == failures(rest));
                assert(success_endpoints(successes(outcomes)) =~= success_endpoints(
                    successes(rest),
                ).push(last.endpoint));
            },
            Err(e) => {
                let item = failure_of(last).unwrap();
                assert(failures(outcomes) =~= failures(rest).push(item));
                assert(successes(outcomes) == successes(rest));
                assert(failure_endpoints(failures(outcomes)) =~= failure_endpoints(
                    failures(rest),
                ).push(last.endpoint));
            },
        }
        assert(success_endpoints(successes(outcomes)).to_multiset().add(
            failure_endpoints(failures(outcomes)).to_multiset(),
        ) =~= outcome_endpoints(outcomes).to_multiset());
    } else {
        assert(outcome_endpoints(outcomes) =~= Seq::empty());
        assert(success_endpoints(successes(outcomes)) =~= Seq::empty());
        assert(failure_endpoints(failures(outcomes)) =~= Seq::empty());
        let none = Seq::<Seq<char>>::empty();
        assert forall|e: Seq<char>| none.to_multiset().count(e) == 0 by {
            vstd::seq_lib::to_multiset_contains(none, e);
        }
        assert(none.to_multiset().add(none.to_multiset()) =~= none.to_multiset());
    }
}

/// The groups of a grouped result hold the successes and nothing else: what
/// they hold together is a permutation of the successes, every answer
/// stands under the root it reports, and successes and failures together
/// are as many as the outcomes.
pub proof fn lemma_grouped_holds_the_outcomes(outcomes: Seq<ResponsePayloadWithEndpointInfoView>)
    ensures
        grouped(outcomes).success.wf(),
        grouped(outcomes).success.gathered().to_multiset() == successes(outcomes).to_multiset(),
        grouped(outcomes).success.gathered().len() + grouped(outcomes).failure.len()
            == outcomes.len(),
        forall|r: Seq<char>, i: int|
            grouped(outcomes).success.groups.dom().contains(r) && 0 <= i < grouped(
                outcomes,
            ).success.groups[r].len() ==> (#[trigger] grouped(outcomes).success.groups[r][i]).root()
                == r,
{
    lemma_of_wf(successes(outcomes));
    crate::groups::lemma_grouping_is_permutation(successes(outcomes));
    lemma_split_conserves(outcomes);
}

/// The quorum rule never names a grouping both canonical and conflicting.
/// What it names canonical has exactly one root. Every group it hands on,
/// under either name, is a group of the input, unchanged. A conflicting
/// result is the whole input grouping.
pub proof fn lemma_classified_is_disjoint(g: GroupedResultView)
    requires
        g.success.wf(),
    ensures
        !(classified(g).canonical is Some && classified(g).non_canonical is Some),
        classified(g).canonical matches Some(c) ==> c.wf() && c.len() == 1 && forall|
            r: Seq<char>,
        | #[trigger]
            c.groups.dom().contains(r) ==> g.success.groups.dom().contains(r) && c.groups[r]
                == g.success.groups[r],
        classified(g).non_canonical matches Some(c) ==> c == g.success && c.len() >= 2,
        (classified(g).canonical is None && classified(g).non_canonical is None)
            <==> g.success.len() == 0,
{
    let count = g.success.groups.dom().len();
    g.success.lemma_len();
    g.success.lemma_above(quorum_threshold(count));
}

/// The quorum rule is a function of the grouping: two results of
/// classifying the same grouping are the same.
pub proof fn lemma_classify_is_repeatable(
    grouping: GroupedResultView,
    first: DisplayableResultView,
    second: DisplayableResultView,
)
    requires
        first == classified(grouping),
        second == classified(grouping),
    ensures
        first == second,
{
}

/// Classifying what a classification handed on changes nothing: the
/// groups and failures of a result, classified again, give that result.
pub proof fn lemma_classified_is_stable(g: GroupedResultView)
    requires
        g.success.wf(),
    ensures
        classified(regrouped(classified(g))) == classified(g),
{
    let d = classified(g);
    let count = g.success.groups.dom().len();
    g.success.lemma_len();
    g.success.lemma_above(quorum_threshold(count));
    match d.canonical {
        Some(c) => {
            c.lemma_len();
        },
        None => {
            match d.non_canonical {
                Some(c) => {},
                None => {
                    assert(RootGroupsView::empty().groups.dom() =~= Set::empty());
                },
            }
        },
    }
}

/// The grouping that a result hands on: its canonical or conflicting
/// groups, or none, with its failures.
pub open spec fn regrouped(d: DisplayableResultView) -> GroupedResultView {
    GroupedResultView {
        success: match d.canonical {
            Some(c) => c,
            None => match d.non_canonical {
                Some(c) => c,
                None => RootGroupsView::empty(),
            },
        },
        failure: d.failure,
    }
}

} // verus!
