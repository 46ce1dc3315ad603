//! Successful answers bucketed by the finalized block root they report.
//!
//! [`RootGroups`] is a map from root to the answers that reported it. It
//! remembers the order in which the roots first appeared, so that walking
//! it gives the same sequence every time.

use vstd::prelude::*;
use vstd::string::*;

use crate::client::{SuccessEndpointPayload, SuccessEndpointPayloadView};

verus! {

/// A successful answer together with the endpoint that gave it.
#[derive(Debug)]
pub struct SuccessPayload {
    pub payload: SuccessEndpointPayload,
    pub endpoint: String,
}

/// The mathematical value of a [`SuccessPayload`].
pub struct SuccessPayloadView {
    pub payload: SuccessEndpointPayloadView,
    pub endpoint: Seq<char>,
}

impl SuccessPayloadView {
    /// The finalized block root the answer reports.
    pub open spec fn root(self) -> Seq<char> {
        self.payload.root()
    }
}

impl View for SuccessPayload {
    type V = SuccessPayloadView;

    open spec fn view(&self) -> SuccessPayloadView {
        SuccessPayloadView { payload: self.payload@, endpoint: self.endpoint@ }
    }
}

/// The values of a list of answers, in the same order.
pub open spec fn payload_views(items: Seq<SuccessPayload>) -> Seq<SuccessPayloadView> {
    items.map_values(|p: SuccessPayload| p@)
}

/// The test whether an answer reports `root`.
pub open spec fn reports(root: Seq<char>) -> spec_fn(SuccessPayloadView) -> bool {
    |p: SuccessPayloadView| p.root() == root
}

/// The answers among `items` that report `root`, in their order in `items`.
pub open spec fn members(items: Seq<SuccessPayloadView>, root: Seq<char>) -> Seq<
    SuccessPayloadView,
> {
    items.filter(reports(root))
}

/// Whether some answer among `items` reports `root`.
pub open spec fn reported(items: Seq<SuccessPayloadView>, root: Seq<char>) -> bool {
    exists|i: int| 0 <= i < items.len() && (#[trigger] items[i]).root() == root
}

/// The mapping from each reported root to the answers that report it.
pub open spec fn grouped_by_root(items: Seq<SuccessPayloadView>) -> Map<
    Seq<char>,
    Seq<SuccessPayloadView>,
> {
    Map::new(|r: Seq<char>| reported(items, r), |r: Seq<char>| members(items, r))
}

/// The distinct roots of `items`, each at the place of its first appearance.
pub open spec fn roots_in_order(items: Seq<SuccessPayloadView>) -> Seq<Seq<char>>
    decreases items.len(),
{
    if items.len() == 0 {
        Seq::empty()
    } else {
        let before = roots_in_order(items.drop_last());
        if before.contains(items.last().root()) {
            before
        } else {
            before.push(items.last().root())
        }
    }
}

/// The answers that `groups` holds under the roots of `order`, group after
/// group.
pub open spec fn gather(
    order: Seq<Seq<char>>,
    groups: Map<Seq<char>, Seq<SuccessPayloadView>>,
) -> Seq<SuccessPayloadView>
    decreases order.len(),
{
    if order.len() == 0 {
        Seq::empty()
    } else {
        gather(order.drop_last(), groups) + groups[order.last()]
    }
}

/// The mathematical value of a [`RootGroups`]: the mapping from root to
/// answers, and the roots in the order in which they are walked.
pub struct RootGroupsView {
    pub order: Seq<Seq<char>>,
    pub groups: Map<Seq<char>, Seq<SuccessPayloadView>>,
}

impl RootGroupsView {
    /// No root and no answer.
    pub open spec fn empty() -> RootGroupsView {
        RootGroupsView { order: Seq::empty(), groups: Map::empty() }
    }

    /// The grouping of `items` by the root they report.
    pub open spec fn of(items: Seq<SuccessPayloadView>) -> RootGroupsView {
        RootGroupsView { order: roots_in_order(items), groups: grouped_by_root(items) }
    }

    /// The roots walked are exactly the roots mapped, each once; no group
    /// is empty; and every answer stands under the root it reports.
    pub open spec fn wf(self) -> bool {
        &&& self.order.no_duplicates()
        &&& self.groups.dom() == self.order.to_set()
        &&& forall|r: Seq<char>| #[trigger]
            self.groups.dom().contains(r) ==> self.groups[r].len() > 0
        &&& forall|r: Seq<char>, i: int|
            self.groups.dom().contains(r) && 0 <= i < self.groups[r].len() ==> (
            #[trigger] self.groups[r][i]).root() == r
    }

    /// The number of distinct roots.
    pub open spec fn len(self) -> nat {
        self.order.len()
    }

    /// All answers held, group after group in the order of the walk.
    pub open spec fn gathered(self) -> Seq<SuccessPayloadView> {
        gather(self.order, self.groups)
    }

    /// The grouping after one more answer: it joins the end of its root's
    /// group, and a root not seen before is walked last.
    pub open spec fn with(self, item: SuccessPayloadView) -> RootGroupsView {
        if self.groups.dom().contains(item.root()) {
            RootGroupsView {
                order: self.order,
                groups: self.groups.insert(item.root(), self.groups[item.root()].push(item)),
            }
        } else {
            RootGroupsView {
                order: self.order.push(item.root()),
                groups: self.groups.insert(item.root(), seq![item]),
            }
        }
    }

    /// The test whether the group of a root has more than `threshold` answers.
    pub open spec fn exceeds(self, threshold: nat) -> spec_fn(Seq<char>) -> bool {
        |r: Seq<char>| self.groups[r].len() > threshold
    }

    /// The groups that have more than `threshold` answers, walked in the
    /// order they have in `self`.
    pub open spec fn above(self, threshold: nat) -> RootGroupsView {
        RootGroupsView {
            order: self.order.filter(self.exceeds(threshold)),
            groups: self.groups.restrict(Set::new(self.exceeds(threshold))),
        }
    }

    /// The grouping that holds the one root `root` with the answers that
    /// `self` has under it.
    pub open spec fn only(self, root: Seq<char>) -> RootGroupsView {
        RootGroupsView { order: seq![root], groups: map![root => self.groups[root]] }
    }
}

/// One more answer joins the members of its own root and of no other.
pub proof fn lemma_members_push(items: Seq<SuccessPayloadView>, item: SuccessPayloadView)
    ensures
        members(items.push(item), item.root()) == members(items, item.root()).push(item),
        forall|r: Seq<char>|
            r != item.root() ==> #[trigger] members(items.push(item), r) == members(items, r),
        forall|r: Seq<char>| #[trigger]
            reported(items.push(item), r) <==> (reported(items, r) || r == item.root()),
{
    let more = items.push(item);
    items.lemma_filter_push(item, reports(item.root()));
    assert forall|r: Seq<char>| r != item.root() implies #[trigger] members(more, r) == members(
        items,
        r,
    ) by {
        items.lemma_filter_push(item, reports(r));
    }
    assert forall|r: Seq<char>| #[trigger]
        reported(more, r) <==> (reported(items, r) || r == item.root()) by {
        if reported(items, r) {
            let i = choose|i: int| 0 <= i < items.len() && (#[trigger] items[i]).root() == r;
            assert(more[i].root() == r);
        }
        if r == item.root() {
            assert(more[items.len() as int].root() == r);
        }
        if reported(more, r) {
            let i = choose|i: int| 0 <= i < more.len() && (#[trigger] more[i]).root() == r;
            if i < items.len() {
                assert(items[i].root() == r);
            }
        }
    }
}

/// A root has members exactly when it is reported, and each member reports it.
pub proof fn lemma_members(items: Seq<SuccessPayloadView>, root: Seq<char>)
    ensures
        members(items, root).len() > 0 <==> reported(items, root),
        members(items, root).len() <= items.len(),
        forall|i: int|
            0 <= i < members(items, root).len() ==> (#[trigger] members(items, root)[i]).root()
                == root,
    decreases items.len(),
{
    reveal(Seq::filter);
    if items.len() > 0 {
        let rest = items.drop_last();
        let last = items.last();
        assert(rest.push(last) =~= items);
        lemma_members(rest, root);
        lemma_members_push(rest, last);
    } else {
        assert(!reported(items, root));
    }
}

/// The roots in order are the reported roots, each once.
pub proof fn lemma_roots_in_order(items: Seq<SuccessPayloadView>)
    ensures
        roots_in_order(items).no_duplicates(),
        roots_in_order(items).len() <= items.len(),
        forall|r: Seq<char>| #[trigger] roots_in_order(items).contains(r) <==> reported(items, r),
    decreases items.len(),
{
    let order = roots_in_order(items);
    if items.len() > 0 {
        let rest = items.drop_last();
        let last = items.last();
        let before = roots_in_order(rest);
        assert(rest.push(last) =~= items);
        lemma_roots_in_order(rest);
        lemma_members_push(rest, last);
        assert forall|r: Seq<char>| #[trigger] order.contains(r) <==> reported(items, r) by {
            if before.contains(r) {
                let i = before.index_of(r);
                assert(before[i] == r);
                assert(order[i] == r);
            }
            if order.contains(r) {
                let i = order.index_of(r);
                assert(order[i] == r);
                if i < before.len() {
                    assert(before[i] == r);
                }
            }
            if r == last.root() && !before.contains(r) {
                assert(order[before.len() as int] == r);
            }
        }
    } else {
        assert forall|r: Seq<char>| #[trigger] order.contains(r) <==> reported(items, r) by {}
    }
}

/// Grouping one answer more is adding it to the grouping so far.
pub proof fn lemma_of_push(items: Seq<SuccessPayloadView>, item: SuccessPayloadView)
    ensures
        RootGroupsView::of(items.push(item)) == RootGroupsView::of(items).with(item),
{
    let more = items.push(item);
    let root = item.root();
    assert(more.drop_last() =~= items);
    lemma_roots_in_order(items);
    lemma_members_push(items, item);
    lemma_members(items, root);
    let got = RootGroupsView::of(more);
    let want = RootGroupsView::of(items).with(item);
    assert(got.order == want.order);
    if !reported(items, root) {
        assert(members(items, root).push(item) =~= seq![item]);
    }
    assert(got.groups =~= want.groups);
}

/// The grouping of any answers is well formed.
pub proof fn lemma_of_wf(items: Seq<SuccessPayloadView>)
    ensures
        RootGroupsView::of(items).wf(),
        RootGroupsView::of(items).len() <= items.len(),
{
    let g = RootGroupsView::of(items);
    lemma_roots_in_order(items);
    assert(g.groups.dom() =~= g.order.to_set());
    assert forall|r: Seq<char>| #[trigger] g.groups.dom().contains(r) implies g.groups[r].len()
        > 0 by {
        lemma_members(items, r);
    }
    assert forall|r: Seq<char>, i: int|
        g.groups.dom().contains(r) && 0 <= i < g.groups[r].len() implies (
    #[trigger] g.groups[r][i]).root() == r by {
        lemma_members(items, r);
    }
}

/// Filtering a sequence without duplicates leaves one without duplicates,
/// which holds what the sequence holds and the test accepts.
pub proof fn lemma_filter_distinct<A>(s: Seq<A>, pred: spec_fn(A) -> bool)
    requires
        s.no_duplicates(),
    ensures
        s.filter(pred).no_duplicates(),
        forall|x: A| #[trigger] s.filter(pred).contains(x) <==> (s.contains(x) && pred(x)),
    decreases s.len(),
{
    let kept = s.filter(pred);
    if s.len() > 0 {
        let rest = s.drop_last();
        let last = s.last();
        let kept_rest = rest.filter(pred);
        assert(rest.push(last) =~= s);
        rest.lemma_filter_push(last, pred);
        lemma_filter_distinct(rest, pred);
        assert(!rest.contains(last)) by {
            if rest.contains(last) {
                let i = choose|i: int| 0 <= i < rest.len() && rest[i] == last;
                assert(s[i] == s[s.len() - 1]);
            }
        }
        assert(!kept_rest.contains(last));
        assert forall|x: A| #[trigger] kept.contains(x) <==> (s.contains(x) && pred(x)) by {
            if kept.contains(x) {
                let i = choose|i: int| 0 <= i < kept.len() && kept[i] == x;
                if i < kept_rest.len() {
                    assert(kept_rest[i] == x);
                    assert(kept_rest.contains(x));
                    assert(rest.contains(x));
                    let j = choose|j: int| 0 <= j < rest.len() && rest[j] == x;
                    assert(s[j] == x);
                } else {
                    assert(x == last);
                    assert(s[s.len() - 1] == x);
                }
            }
            if s.contains(x) && pred(x) {
                let j = choose|j: int| 0 <= j < s.len() && s[j] == x;
                if j < rest.len() {
                    assert(rest[j] == x);
                    assert(rest.contains(x));
                    assert(kept_rest.contains(x));
                    let i = choose|i: int| 0 <= i < kept_rest.len() && kept_rest[i] == x;
                    assert(kept[i] == x);
                } else {
                    assert(x == last);
                    assert(kept[kept.len() - 1] == x);
                }
            }
        }
        assert forall|i: int, j: int| 0 <= i < kept.len() && 0 <= j < kept.len() && i != j implies kept[i]
            != kept[j] by {
            if i < kept_rest.len() && j < kept_rest.len() {
                assert(kept_rest[i] != kept_rest[j]);
            } else if i < kept_rest.len() {
                assert(kept_rest.contains(kept_rest[i]));
            } else if j < kept_rest.len() {
                assert(kept_rest.contains(kept_rest[j]));
            }
        }
    } else {
        reveal(Seq::filter);
        assert(kept.len() == 0);
        assert forall|x: A| #[trigger] kept.contains(x) <==> (s.contains(x) && pred(x)) by {}
    }
}

impl RootGroupsView {
    /// The groups above a threshold form a well-formed grouping, with as
    /// many roots mapped as walked.
    pub proof fn lemma_above(self, threshold: nat)
        requires
            self.wf(),
        ensures
            self.above(threshold).wf(),
            self.above(threshold).groups.dom().len() == self.above(threshold).len(),
            self.above(threshold).groups.dom().finite(),
            forall|r: Seq<char>| #[trigger]
                self.above(threshold).groups.dom().contains(r) ==> self.groups.dom().contains(r)
                    && self.above(threshold).groups[r] == self.groups[r],
    {
        let p = self.above(threshold);
        lemma_filter_distinct(self.order, self.exceeds(threshold));
        assert(p.groups.dom() =~= p.order.to_set());
        p.order.unique_seq_to_set();
    }

    /// A well-formed grouping maps as many roots as it walks.
    pub proof fn lemma_len(self)
        requires
            self.wf(),
        ensures
            self.groups.dom().finite(),
            self.groups.dom().len() == self.len(),
    {
        self.order.unique_seq_to_set();
    }

    /// Where one root alone is above the threshold, the groups above it
    /// are that root with its answers.
    pub proof fn lemma_above_only(self, threshold: nat, root: Seq<char>)
        requires
            self.wf(),
            self.above(threshold).order == seq![root],
        ensures
            self.above(threshold) == self.only(root),
    {
        let p = self.above(threshold);
        self.lemma_above(threshold);
        assert(p.order[0] == root);
        assert(p.order.to_set() =~= set![root]);
        assert(p.groups =~= self.only(root).groups);
    }
}

/// Changing the group of a root that is not walked changes nothing gathered.
proof fn lemma_gather_untouched(
    order: Seq<Seq<char>>,
    groups: Map<Seq<char>, Seq<SuccessPayloadView>>,
    root: Seq<char>,
    group: Seq<SuccessPayloadView>,
)
    requires
        !order.contains(root),
    ensures
        gather(order, groups.insert(root, group)) == gather(order, groups),
    decreases order.len(),
{
    if order.len() > 0 {
        let rest = order.drop_last();
        assert(order[order.len() - 1] != root);
        assert(!rest.contains(root)) by {
            if rest.contains(root) {
                let i = choose|i: int| 0 <= i < rest.len() && rest[i] == root;
                assert(order[i] == root);
            }
        }
        lemma_gather_untouched(rest, groups, root, group);
    }
}

/// One more answer in the group of a walked root is one more answer gathered.
proof fn lemma_gather_grows(
    order: Seq<Seq<char>>,
    groups: Map<Seq<char>, Seq<SuccessPayloadView>>,
    root: Seq<char>,
    item: SuccessPayloadView,
)
    requires
        order.no_duplicates(),
        order.contains(root),
    ensures
        gather(order, groups.insert(root, groups[root].push(item))).to_multiset() == gather(
            order,
            groups,
        ).to_multiset().insert(item),
    decreases order.len(),
{
    broadcast use {
        vstd::seq_lib::to_multiset_build,
        vstd::seq_lib::lemma_multiset_commutative,
    };

    let grown = groups.insert(root, groups[root].push(item));
    let rest = order.drop_last();
    let last = order.last();
    if last == root {
        assert(!rest.contains(root)) by {
            if rest.contains(root) {
                let i = choose|i: int| 0 <= i < rest.len() && rest[i] == root;
                assert(order[i] == order[order.len() - 1]);
            }
        }
        lemma_gather_untouched(rest, groups, root, groups[root].push(item));
        assert(gather(rest, groups) + groups[root].push(item) =~= (gather(rest, groups)
            + groups[root]).push(item));
    } else {
        assert(rest.contains(root)) by {
            let i = choose|i: int| 0 <= i < order.len() && order[i] == root;
            assert(rest[i] == root);
        }
        lemma_gather_grows(rest, groups, root, item);
        assert(gather(order, grown).to_multiset() =~= gather(order, groups).to_multiset().insert(
            item,
        ));
    }
}

/// Adding an answer to a grouping adds it, once, to what is gathered.
pub proof fn lemma_with_gathers(g: RootGroupsView, item: SuccessPayloadView)
    requires
        g.wf(),
    ensures
        g.with(item).gathered().to_multiset() == g.gathered().to_multiset().insert(item),
{
    broadcast use vstd::seq_lib::to_multiset_build;

    let root = item.root();
    if g.groups.dom().contains(root) {
        lemma_gather_grows(g.order, g.groups, root, item);
    } else {
        let more = g.order.push(root);
        assert(more.drop_last() =~= g.order);
        lemma_gather_untouched(g.order, g.groups, root, seq![item]);
        assert(gather(g.order, g.groups) + seq![item] =~= gather(g.order, g.groups).push(item));
    }
}

/// Grouping rearranges the answers and neither drops nor repeats one: what
/// the groups hold together is a permutation of the answers grouped.
pub proof fn lemma_grouping_is_permutation(items: Seq<SuccessPayloadView>)
    ensures
        RootGroupsView::of(items).gathered().to_multiset() == items.to_multiset(),
        RootGroupsView::of(items).gathered().len() == items.len(),
    decreases items.len(),
{
    broadcast use {vstd::seq_lib::to_multiset_build, vstd::seq_lib::to_multiset_len};

    if items.len() > 0 {
        let rest = items.drop_last();
        let last = items.last();
        assert(rest.push(last) =~= items);
        lemma_grouping_is_permutation(rest);
        lemma_of_push(rest, last);
        lemma_of_wf(rest);
        lemma_with_gathers(RootGroupsView::of(rest), last);
    } else {
        assert(RootGroupsView::of(items).gathered() =~= items);
    }
    assert(RootGroupsView::of(items).gathered().to_multiset().len() == items.to_multiset().len());
}

/// One root with the answers that reported it.
#[derive(Debug)]
struct Group {
    root: String,
    members: Vec<SuccessPayload>,
}

/// The roots of `groups`, in the same order.
spec fn order_of(groups: Seq<Group>) -> Seq<Seq<char>> {
    groups.map_values(|g: Group| g.root@)
}

/// Roots are distinct, groups are not empty, and each answer sits in the
/// group of the root it reports.
spec fn sound(groups: Seq<Group>) -> bool {
    &&& order_of(groups).no_duplicates()
    &&& forall|i: int| 0 <= i < groups.len() ==> (#[trigger] groups[i]).members@.len() > 0
    &&& forall|i: int, j: int|
        0 <= i < groups.len() && 0 <= j < groups[i].members@.len() ==> (
        #[trigger] groups[i].members@[j])@.root() == groups[i].root@
}

/// A map from finalized block root to the answers that reported it, walked
/// in the order in which the roots first appeared.
#[derive(Debug)]
pub struct RootGroups {
    groups: Vec<Group>,
}

impl View for RootGroups {
    type V = RootGroupsView;

    closed spec fn view(&self) -> RootGroupsView {
        RootGroupsView {
            order: self.order(),
            groups: Map::new(
                |r: Seq<char>| self.order().contains(r),
                |r: Seq<char>| payload_views(self.groups@[self.order().index_of(r)].members@),
            ),
        }
    }
}

impl RootGroups {
    /// The roots of the groups held, in the order held.
    pub closed spec fn order(&self) -> Seq<Seq<char>> {
        order_of(self.groups@)
    }

    /// The representation is sound: roots are distinct, groups are not
    /// empty, and each answer sits in the group of the root it reports.
    #[verifier::type_invariant]
    pub closed spec fn inv(&self) -> bool {
        sound(self.groups@)
    }

    /// A sound representation has a well-formed value.
    pub proof fn lemma_view_wf(&self)
        requires
            self.inv(),
        ensures
            self@.wf(),
            self@.order == self.order(),
    {
        let order = self.order();
        assert(self@.groups.dom() =~= order.to_set());
        assert forall|r: Seq<char>| #[trigger] self@.groups.dom().contains(r) implies self@.groups[r].len()
            > 0 by {
            let i = order.index_of(r);
            assert(order[i] == r);
            assert(self.groups@[i].members@.len() > 0);
        }
        assert forall|r: Seq<char>, i: int|
            self@.groups.dom().contains(r) && 0 <= i < self@.groups[r].len() implies (
        #[trigger] self@.groups[r][i]).root() == r by {
            let k = order.index_of(r);
            assert(order[k] == r);
            assert(self.groups@[k].members@[i]@.root() == self.groups@[k].root@);
        }
    }

    /// A map that holds nothing.
    pub fn new() -> (r: RootGroups)
        ensures
            r@ == RootGroupsView::empty(),
    {
        let r = RootGroups { groups: Vec::new() };
        assert(r@.order =~= Seq::empty());
        assert(r@.groups =~= Map::empty());
        r
    }

    /// The number of distinct roots.
    pub fn len(&self) -> (n: usize)
        ensures
            n == self@.len(),
            n == self@.groups.dom().len(),
            self@.wf(),
    {
        proof {
            use_type_invariant(self);
            self.lemma_view_wf();
            self@.order.unique_seq_to_set();
        }
        self.groups.len()
    }

    /// Whether no root is held.
    pub fn is_empty(&self) -> (b: bool)
        ensures
            b == (self@.len() == 0),
            self@.wf(),
    {
        self.len() == 0
    }

    /// Where the group of `root` is held, if it is.
    fn position(&self, root: &String) -> (r: Option<usize>)
        ensures
            match r {
                Some(i) => i < self.order().len() && self.order()[i as int] == root@,
                None => !self.order().contains(root@),
            },
    {
        let mut i: usize = 0;
        while i < self.groups.len()
            invariant
                i <= self.groups@.len(),
                forall|j: int| 0 <= j < i ==> self.order()[j] != root@,
            decreases self.groups@.len() - i,
        {
            if self.groups[i].root == *root {
                return Some(i);
            }
            i += 1;
        }
        None
    }

    /// The answers that reported `root`, if any did.
    pub fn get(&self, root: &str) -> (r: Option<&Vec<SuccessPayload>>)
        ensures
            self@.wf(),
            match r {
                Some(v) => self@.groups.dom().contains(root@) && payload_views(v@)
                    == self@.groups[root@],
                None => !self@.groups.dom().contains(root@),
            },
    {
        proof {
            use_type_invariant(self);
            self.lemma_view_wf();
        }
        let key = String::from_str(root);
        match self.position(&key) {
            Some(i) => {
                proof {
                    let k = self.order().index_of(root@);
                    assert(self.order()[k] == root@);
                    assert(k == i);
                }
                Some(&self.groups[i].members)
            },
            None => None,
        }
    }

    /// Adds one answer: to the end of its root's group, or as a new group
    /// that is walked last when its root was not seen before.
    pub fn add(self, item: SuccessPayload) -> (r: RootGroups)
        ensures
            r@ == self@.with(item@),
    {
        proof {
            use_type_invariant(&self);
            self.lemma_view_wf();
        }
        let ghost before = self;
        let pos = self.position(&item.payload.data.finalized.root);
        let mut groups = self.groups;
        match pos {
            Some(i) => {
                groups[i].members.push(item);
            },
            None => {
                let root = item.payload.data.finalized.root.clone();
                let mut members: Vec<SuccessPayload> = Vec::new();
                members.push(item);
                groups.push(Group { root, members });
            },
        }
        proof {
            let root = item@.root();
            let old_groups = before.groups@;
            match pos {
                Some(i) => {
                    assert(order_of(groups@) =~= order_of(old_groups));
                    assert forall|a: int, b: int|
                        0 <= a < groups@.len() && 0 <= b < groups@[a].members@.len() implies (
                    #[trigger] groups@[a].members@[b])@.root() == groups@[a].root@ by {
                        if a == i && b == old_groups[a].members@.len() {
                        } else {
                            assert(groups@[a].members@[b] == old_groups[a].members@[b]);
                        }
                    }
                },
                None => {
                    assert(order_of(groups@) =~= order_of(old_groups).push(root));
                    assert forall|a: int, b: int|
                        0 <= a < groups@.len() && 0 <= b < groups@[a].members@.len() implies (
                    #[trigger] groups@[a].members@[b])@.root() == groups@[a].root@ by {
                        if a < old_groups.len() {
                            assert(groups@[a].members@[b] == old_groups[a].members@[b]);
                        }
                    }
                },
            }
            assert(sound(groups@));
        }
        let r = RootGroups { groups };
        proof {
            let root = item@.root();
            let want = before@.with(item@);
            assert forall|k: Seq<char>| r.order().contains(k) <==> (before.order().contains(k) || k
                == root) by {
                if before.order().contains(k) {
                    let j = before.order().index_of(k);
                    assert(before.order()[j] == k);
                    assert(r.order()[j] == k);
                }
                if k == root {
                    match pos {
                        Some(i) => {
                            assert(r.order()[i as int] == k);
                        },
                        None => {
                            assert(r.order()[before.groups@.len() as int] == k);
                        },
                    }
                }
                if r.order().contains(k) {
                    let j = r.order().index_of(k);
                    assert(r.order()[j] == k);
                    if j < before.order().len() {
                        assert(before.order()[j] == k);
                    }
                }
            }
            assert(r@.groups.dom() =~= want.groups.dom());
            assert forall|k: Seq<char>| #[trigger] r@.groups.dom().contains(k) implies r@.groups[k]
                == want.groups[k] by {
                let j = r.order().index_of(k);
                assert(r.order()[j] == k);
                if k == root {
                    match pos {
                        Some(i) => {
                            assert(r.order()[i as int] == k);
                            assert(j == i);
                            assert(payload_views(r.groups@[j].members@) =~= payload_views(
                                before.groups@[j].members@,
                            ).push(item@));
                            let j0 = before.order().index_of(k);
                            assert(before.order()[j0] == k);
                            assert(j0 == i);
                        },
                        None => {
                            assert(r.order()[before.groups@.len() as int] == k);
                            assert(j == before.groups@.len());
                            assert(payload_views(r.groups@[j].members@) =~= seq![item@]);
                        },
                    }
                } else {
                    let j0 = before.order().index_of(k);
                    assert(before.order()[j0] == k);
                    assert(r.order()[j0] == k);
                    assert(j == j0);
                    assert(r.groups@[j] == before.groups@[j]);
                }
            }
            assert(r@.groups =~= want.groups);
            assert(r@.order =~= want.order);
        }
        r
    }

    /// The places in the walk of the groups with more than `threshold`
    /// answers, in rising order.
    pub fn places_above(&self, threshold: usize) -> (places: Vec<usize>)
        ensures
            self@.wf(),
            places@.len() == self@.above(threshold as nat).len(),
            forall|k: int|
                0 <= k < places@.len() ==> (#[trigger] places@[k]) < self@.len()
                    && self@.order[places@[k] as int] == self@.above(threshold as nat).order[k],
    {
        proof {
            use_type_invariant(self);
            self.lemma_view_wf();
        }
        let ghost order = self@.order;
        let ghost pred = self@.exceeds(threshold as nat);
        let mut places: Vec<usize> = Vec::new();
        let n = self.len();
        let mut i: usize = 0;
        proof {
            reveal(Seq::filter);
            assert(order.take(0) =~= Seq::empty());
        }
        while i < n
            invariant
                i <= n,
                n == self@.len(),
                self@.wf(),
                order == self@.order,
                pred == self@.exceeds(threshold as nat),
                places@.len() == order.take(i as int).filter(pred).len(),
                forall|k: int|
                    0 <= k < places@.len() ==> (#[trigger] places@[k]) < i
                        && order[places@[k] as int] == order.take(i as int).filter(pred)[k],
            decreases n - i,
        {
            let held = self.members_at(i);
            let size = held.len();
            proof {
                let seen = order.take(i as int);
                let root = order[i as int];
                assert(order.take(i + 1) =~= seen.push(root));
                seen.lemma_filter_push(root, pred);
                assert(payload_views(held@).len() == size);
                assert(pred(root) == (size > threshold));
                if pred(root) {
                    assert forall|k: int| 0 <= k < seen.filter(pred).len() implies seen.filter(
                        pred,
                    ).push(root)[k] == seen.filter(pred)[k] by {}
                }
            }
            if size > threshold {
                places.push(i);
            }
            i += 1;
        }
        proof {
            assert(order.take(n as int) =~= order);
        }
        places
    }

    /// Keeps the group at place `i` of the walk and drops the others.
    pub fn into_only(self, i: usize) -> (r: RootGroups)
        requires
            i < self@.len(),
        ensures
            r@ == self@.only(self@.order[i as int]),
    {
        proof {
            use_type_invariant(&self);
            self.lemma_view_wf();
        }
        let ghost before = self;
        let mut groups = self.groups;
        let group = groups.swap_remove(i);
        let mut kept: Vec<Group> = Vec::new();
        kept.push(group);
        proof {
            assert(order_of(kept@) =~= seq![before.order()[i as int]]);
            assert(sound(kept@));
        }
        let r = RootGroups { groups: kept };
        proof {
            let root = before.order()[i as int];
            let want = before@.only(root);
            assert(r@.order =~= want.order);
            assert(r.order()[0] == root);
            assert forall|k: Seq<char>| #[trigger] r.order().contains(k) <==> k == root by {
                if r.order().contains(k) {
                    let j = r.order().index_of(k);
                    assert(r.order()[j] == k);
                }
            }
            assert(r@.groups.dom() =~= want.groups.dom());
            let j = r.order().index_of(root);
            assert(r.order()[j] == root);
            let j0 = before.order().index_of(root);
            assert(before.order()[j0] == root);
            assert(j0 == i);
            assert(r@.groups =~= want.groups);
        }
        r
    }

    /// The root at place `i` of the walk.
    pub fn root_at(&self, i: usize) -> (r: &String)
        requires
            i < self@.len(),
        ensures
            r@ == self@.order[i as int],
    {
        &self.groups[i].root
    }

    /// The answers under the root at place `i` of the walk.
    pub fn members_at(&self, i: usize) -> (v: &Vec<SuccessPayload>)
        requires
            i < self@.len(),
        ensures
            self@.wf(),
            self@.groups.dom().contains(self@.order[i as int]),
            payload_views(v@) == self@.groups[self@.order[i as int]],
            v@.len() > 0,
    {
        proof {
            use_type_invariant(self);
            self.lemma_view_wf();
            let r = self.order()[i as int];
            let k = self.order().index_of(r);
            assert(self.order()[k] == r);
            assert(k == i);
            assert(self.groups@[i as int].members@.len() > 0);
        }
        &self.groups[i].members
    }
}

} // verus!
