use vstd::prelude::*;

use crate::error::{ConversionError, EngineError};
use crate::layout::{prefix_sum, slice_rect, sum, Rect};
use crate::link::{Link, Response};
use crate::partitions::{
    counts_of, partitions_v_wf, Partition, PartitionV, Partitions, PartitionsV,
};
use crate::query::{
    field_label, filter_of, group_by_field_order, lemma_group_by_field_order_complete, views_of,
    Filter, FilterOp, FilterV, GroupByField, QueryV, Request, ValueField, ValueFieldV,
};

verus! {

/// What the engine is doing. At most one action is pending at any time.
#[derive(Clone, Copy, PartialEq, Eq, Structural, Debug)]
pub enum Action {
    /// A new navigation depth was requested.
    Select,
    /// The deepest depth is being recomputed.
    Recalculate,
    /// A request is in flight and no further request may be issued. This is
    /// a client-side marker only: it is never sent to the worker, and a
    /// response tagged with it is an internal-consistency violation.
    Wait,
}

/// The default grouping staged for each navigation depth.
pub open spec fn default_group_field(index: int) -> GroupByField {
    if index == 0 {
        GroupByField::Year
    } else if index == 1 {
        GroupByField::SenderDomain
    } else if index == 2 {
        GroupByField::SenderLocalPart
    } else if index == 3 {
        GroupByField::Month
    } else {
        GroupByField::Day
    }
}

/// The default grouping for one depth of the navigation stack. Only the
/// first few depths have a prepared default; the engine never drills deeper.
pub fn default_group_by_stack(index: usize) -> (r: GroupByField)
    requires
        index < 5,
    ensures
        r == default_group_field(index as int),
{
    match index {
        0 => GroupByField::Year,
        1 => GroupByField::SenderDomain,
        2 => GroupByField::SenderLocalPart,
        3 => GroupByField::Month,
        _ => GroupByField::Day,
    }
}

/// The mathematical value of a [`Grouping`].
#[verifier::ext_equal]
pub ghost struct GroupingV {
    pub value: Option<ValueFieldV>,
    pub field: GroupByField,
    pub index: int,
}

/// One depth of the navigation as shown to the caller: the grouping field at
/// that depth, the depth itself, and the value selected there, if any.
#[derive(Debug)]
pub struct Grouping {
    value: Option<ValueField>,
    field: GroupByField,
    index: usize,
}

impl View for Grouping {
    type V = GroupingV;

    closed spec fn view(&self) -> GroupingV {
        GroupingV {
            value: match self.value {
                Some(v) => Some(v@),
                None => None,
            },
            field: self.field,
            index: self.index as int,
        }
    }
}

impl Grouping {
    /// The selected value at this depth as text, if one is selected.
    pub fn value(&self) -> (r: Option<String>)
        ensures
            r is Some <==> self@.value is Some,
            r matches Some(s) ==> (self@.value matches Some(v) && s@ == v.value),
    {
        match &self.value {
            Some(v) => Some(v.value.clone()),
            None => None,
        }
    }

    /// The label of the grouping field at this depth.
    pub fn name(&self) -> (r: &str)
        ensures
            r@ == field_label(self@.field),
    {
        self.field.as_str()
    }

    /// Where this grouping's field sits in `in_fields`, if it occurs there.
    pub fn index(&self, in_fields: &[GroupByField]) -> (r: Option<usize>)
        ensures
            r matches Some(i) ==> i < in_fields@.len() && in_fields@[i as int] == self@.field
                && (forall|j: int| 0 <= j < i as int ==> in_fields@[j] != self@.field),
            r is None ==> forall|j: int| 0 <= j < in_fields@.len() ==> in_fields@[j]
                != self@.field,
    {
        let mut i: usize = 0;
        while i < in_fields.len()
            invariant
                i <= in_fields@.len(),
                forall|j: int| 0 <= j < i as int ==> in_fields@[j] != self@.field,
            decreases in_fields@.len() - i,
        {
            if in_fields[i] == self.field {
                return Some(i);
            }
            i += 1;
        }
        None
    }
}

/// The mathematical value of an [`Engine`]: the three parallel navigation
/// stacks and the pending action.
#[verifier::ext_equal]
pub ghost struct EngineV {
    pub search: Seq<ValueFieldV>,
    pub groups: Seq<GroupByField>,
    pub parts: Seq<PartitionsV>,
    pub action: Option<Action>,
}

/// The navigation stacks are consistent:
/// - the grouping stack always stages exactly one more entry than the
///   resolved selections;
/// - the engine never drills past the prepared default groupings;
/// - the partitions stack either matches the selections or has one more
///   (not yet selected) depth, and when no action is pending the deepest
///   computed depth is always the unselected one;
/// - every computed depth can be laid out;
/// - a depth with a recorded selection holds that selection, and deeper
///   depths hold none.
pub open spec fn nav_wf(e: EngineV) -> bool {
    &&& e.groups.len() == e.search.len() + 1
    &&& e.groups.len() <= 5
    &&& (e.parts.len() == e.search.len() || e.parts.len() == e.search.len() + 1)
    &&& (e.action is None ==> (e.parts.len() == 0 || e.parts.len() == e.search.len() + 1))
    &&& forall|i: int| 0 <= i < e.parts.len() ==> partitions_v_wf(#[trigger] e.parts[i])
    &&& forall|i: int| 0 <= i < e.search.len()
        ==> ((#[trigger] e.parts[i]).selected matches Some(p) && p.field == e.search[i])
    &&& forall|i: int| e.search.len() <= i < e.parts.len() ==> (#[trigger] e.parts[i]).selected
        is None
}

/// Recording a selection: the deepest depth remembers the chosen partition,
/// its value joins the search stack, and the next default grouping is staged.
pub open spec fn select_transition(e: EngineV, p: PartitionV) -> EngineV {
    EngineV {
        parts: e.parts.update(
            e.parts.len() - 1,
            (PartitionsV { items: e.parts.last().items, selected: Some(p) }),
        ),
        search: e.search.push(p.field),
        groups: e.groups.push(default_group_field(e.groups.len() as int)),
        action: Some(Action::Wait),
    }
}

/// Applying a response to a selection: the new deepest depth is pushed, with
/// nothing selected there yet, and the pending action is cleared.
pub open spec fn apply_select(e: EngineV, items: Seq<PartitionV>) -> EngineV {
    EngineV {
        parts: e.parts.push(PartitionsV { items, selected: None }),
        action: None,
        ..e
    }
}

/// Applying a response to a recalculation: the deepest depth is replaced,
/// with nothing selected there, and the pending action is cleared.
pub open spec fn apply_recalculate(e: EngineV, items: Seq<PartitionV>) -> EngineV {
    EngineV {
        parts: e.parts.update(
            e.parts.len() - 1,
            PartitionsV { items, selected: None },
        ),
        action: None,
        ..e
    }
}

/// Navigating back: the deepest entry of every stack is dropped and the
/// selection at the depth that becomes deepest is cleared.
pub open spec fn back_transition(e: EngineV) -> EngineV {
    let shorter = e.parts.drop_last();
    EngineV {
        groups: e.groups.drop_last(),
        search: e.search.drop_last(),
        parts: if shorter.len() > 0 {
            shorter.update(
                shorter.len() - 1,
                (PartitionsV { items: shorter.last().items, selected: None }),
            )
        } else {
            shorter
        },
        action: e.action,
    }
}

/// All three stacks have an entry to pop.
pub open spec fn back_allowed(e: EngineV) -> bool {
    e.groups.len() > 0 && e.parts.len() > 0 && e.search.len() > 0
}

/// The query the engine issues for a navigation state: every resolved
/// selection becomes an equality filter, and the grouping is the deepest
/// staged field.
pub open spec fn request_query(e: EngineV) -> QueryV {
    QueryV::Grouped {
        filters: e.search.map_values(|v: ValueFieldV| filter_of(v)),
        group_by: e.groups.last(),
    }
}

/// The value selected at depth `i`, if that depth is computed and has one.
pub open spec fn selected_value_at(e: EngineV, i: int) -> Option<ValueFieldV> {
    if 0 <= i < e.parts.len() {
        match e.parts[i].selected {
            Some(p) => Some(p.field),
            None => None,
        }
    } else {
        None
    }
}

/// The fields offered for re-grouping: every field of `order` that is either
/// `current` or not used anywhere in `stack`, in order.
pub open spec fn available_from(
    order: Seq<GroupByField>,
    stack: Seq<GroupByField>,
    current: GroupByField,
) -> Seq<GroupByField>
    decreases order.len(),
{
    if order.len() == 0 {
        Seq::empty()
    } else {
        let rest = available_from(order.drop_last(), stack, current);
        if order.last() == current || !stack.contains(order.last()) {
            rest.push(order.last())
        } else {
            rest
        }
    }
}

/// The fields offered for re-grouping at a depth whose current field is
/// `current`, out of the full enumeration order.
pub open spec fn available_fields(stack: Seq<GroupByField>, current: GroupByField) -> Seq<
    GroupByField,
> {
    available_from(group_by_field_order(), stack, current)
}

/// What `available_from` keeps: exactly the fields of `order` that are the
/// current one or unused in the stack.
proof fn lemma_available_from_props(
    order: Seq<GroupByField>,
    stack: Seq<GroupByField>,
    current: GroupByField,
)
    ensures
        forall|f: GroupByField| #[trigger] available_from(order, stack, current).contains(f)
            ==> (order.contains(f) && (f == current || !stack.contains(f))),
        forall|f: GroupByField| order.contains(f) && (f == current || !stack.contains(f))
            ==> available_from(order, stack, current).contains(f),
    decreases order.len(),
{
    let res = available_from(order, stack, current);
    if order.len() == 0 {
        assert forall|f: GroupByField| #[trigger] res.contains(f) implies (order.contains(f) && (f
            == current || !stack.contains(f))) by {
            let j = choose|j: int| 0 <= j < res.len() && res[j] == f;
        }
    } else {
        let shorter = order.drop_last();
        let l = order.last();
        let rest = available_from(shorter, stack, current);
        lemma_available_from_props(shorter, stack, current);
        assert forall|f: GroupByField| #[trigger] res.contains(f) implies (order.contains(f) && (f
            == current || !stack.contains(f))) by {
            let j = choose|j: int| 0 <= j < res.len() && res[j] == f;
            if j < rest.len() {
                assert(rest[j] == f);
                assert(rest.contains(f));
                let k = choose|k: int| 0 <= k < shorter.len() && shorter[k] == f;
                assert(order[k] == f);
            } else {
                assert(f == l);
                assert(order[order.len() - 1] == f);
            }
        }
        assert forall|f: GroupByField| order.contains(f) && (f == current || !stack.contains(
            f,
        )) implies res.contains(f) by {
            let j = choose|j: int| 0 <= j < order.len() && order[j] == f;
            if j < order.len() - 1 {
                assert(shorter[j] == f);
                assert(shorter.contains(f));
                assert(rest.contains(f));
                let k = choose|k: int| 0 <= k < rest.len() && rest[k] == f;
                assert(res[k] == f);
            } else {
                assert(f == l);
                assert(res[res.len() - 1] == f);
            }
        }
    }
}

/// Law: the offered grouping fields always include the field currently at
/// the depth, never include a field used at another depth (other than the
/// current one), and are exactly the full enumeration minus the fields used
/// elsewhere.
pub proof fn lemma_available_fields(stack: Seq<GroupByField>, current: GroupByField)
    ensures
        available_fields(stack, current).contains(current),
        forall|f: GroupByField| #[trigger] available_fields(stack, current).contains(f)
            ==> (f == current || !stack.contains(f)),
        forall|f: GroupByField| (f == current || !stack.contains(f))
            ==> available_fields(stack, current).contains(f),
{
    lemma_available_from_props(group_by_field_order(), stack, current);
    lemma_group_by_field_order_complete(current);
    assert forall|f: GroupByField| (f == current || !stack.contains(f)) implies available_fields(
        stack,
        current,
    ).contains(f) by {
        lemma_group_by_field_order_complete(f);
    }
}

/// Law: recording a selection leaves the grouping stack one entry longer
/// than the partitions stack; the response that resolves it makes the two
/// equal; navigating back then restores the state from before the selection
/// exactly.
pub proof fn lemma_select_round_trip(e: EngineV, p: PartitionV, items: Seq<PartitionV>)
    requires
        nav_wf(e),
        e.action is None,
        e.parts.len() > 0,
        e.groups.len() < 5,
    ensures
        ({
            let after_select = select_transition(e, p);
            let after_resolve = apply_select(after_select, items);
            let after_back = back_transition(after_resolve);
            &&& after_select.groups.len() == after_select.parts.len() + 1
            &&& after_resolve.groups.len() == after_resolve.parts.len()
            &&& after_back == e
        }),
{
    let after_select = select_transition(e, p);
    let after_resolve = apply_select(after_select, items);
    let after_back = back_transition(after_resolve);
    let n = e.parts.len() - 1;
    assert(after_resolve.parts.drop_last() =~= after_select.parts);
    assert(e.parts[n].selected is None);
    assert(after_select.parts.last().items == e.parts[n].items);
    assert(after_back.parts[n] =~= e.parts[n]);
    assert(after_back.parts =~= e.parts);
    assert(after_back.groups =~= e.groups);
    assert(after_back.search =~= e.search);
    assert(after_back =~~= e);
}

/// The drill-down state machine. It owns the navigation stacks — which
/// grouping is staged at each depth, which partitions each depth computed,
/// and which value was selected at each resolved depth — and drives the
/// link: every operation stages one action, sends one request, and waits for
/// `process` to apply the worker's response.
pub struct Engine {
    search_stack: Vec<ValueField>,
    group_by_stack: Vec<GroupByField>,
    link: Link<Action>,
    partitions: Vec<Partitions>,
    action: Option<Action>,
}

impl View for Engine {
    type V = EngineV;

    closed spec fn view(&self) -> EngineV {
        EngineV {
            search: views_of(self.search_stack@),
            groups: self.group_by_stack@,
            parts: views_of(self.partitions@),
            action: self.action,
        }
    }
}

impl Engine {
    /// Consistent navigation stacks over a link whose in-flight bookkeeping
    /// is sound: at most one request outstanding, none while idle.
    pub closed spec fn wf(&self) -> bool {
        &&& nav_wf(self@)
        &&& self.link.wf()
        &&& 0 <= self.link.in_flight() <= 1
        &&& (self@.action is None ==> self.link.in_flight() == 0)
    }

    /// Every request this engine handed to its link so far, oldest first:
    /// the query and the action it was tagged with.
    pub closed spec fn sent_requests(&self) -> Seq<(QueryV, Action)> {
        self.link.sent_requests()
    }

    /// No response is outstanding on the link.
    pub closed spec fn link_idle(&self) -> bool {
        self.link.in_flight() == 0
    }

    /// A fresh engine over a link with no outstanding work: one staged
    /// default grouping, nothing computed, nothing selected, nothing
    /// pending.
    pub fn new(link: Link<Action>) -> (r: Engine)
        requires
            link.wf(),
            link.in_flight() == 0,
        ensures
            r.wf(),
            r@ == (EngineV {
                search: Seq::empty(),
                groups: seq![default_group_field(0)],
                parts: Seq::empty(),
                action: None,
            }),
            r.sent_requests() == link.sent_requests(),
    {
        let mut group_by_stack: Vec<GroupByField> = Vec::new();
        group_by_stack.push(default_group_by_stack(0));
        let engine = Engine {
            search_stack: Vec::new(),
            group_by_stack,
            link,
            partitions: Vec::new(),
            action: None,
        };
        proof {
            assert(views_of(engine.search_stack@) =~= Seq::<ValueFieldV>::empty());
            assert(views_of(engine.partitions@) =~= Seq::<PartitionsV>::empty());
            assert(engine.group_by_stack@ =~= seq![default_group_field(0)]);
            assert(engine@ =~~= (EngineV {
                search: Seq::empty(),
                groups: seq![default_group_field(0)],
                parts: Seq::empty(),
                action: None,
            }));
        }
        engine
    }

    /// Build the request for the current stacks — the accumulated selections
    /// as equality filters plus the whole grouping stack — and hand it to
    /// the worker tagged with `action`. On success the engine holds in
    /// `Wait`; if the worker is gone the staged action stays pending and the
    /// failure is reported.
    fn send_request(&mut self, action: Action) -> (r: Result<(), EngineError>)
        requires
            old(self).link.wf(),
            old(self).link.in_flight() == 0,
            old(self)@.groups.len() > 0,
            action != Action::Wait,
        ensures
            final(self).link.wf(),
            final(self).link.in_flight() == 1,
            final(self).sent_requests() == old(self).sent_requests().push(
                (request_query(old(self)@), action),
            ),
            final(self)@.search == old(self)@.search,
            final(self)@.groups == old(self)@.groups,
            final(self)@.parts == old(self)@.parts,
            r is Ok ==> final(self)@.action == Some(Action::Wait),
            r is Err ==> final(self)@.action == Some(action),
            r matches Err(e) ==> e == EngineError::ChannelClosed,
    {
        let mut filters: Vec<Filter> = Vec::new();
        let mut i: usize = 0;
        while i < self.search_stack.len()
            invariant
                i <= self.search_stack@.len(),
                filters@.len() == i as int,
                forall|j: int| 0 <= j < i as int ==> filters@[j]@ == (FilterV {
                    field: views_of(self.search_stack@)[j].field,
                    op: FilterOp::Equals,
                    value: views_of(self.search_stack@)[j].value,
                }),
            decreases self.search_stack@.len() - i,
        {
            let vf = &self.search_stack[i];
            filters.push(Filter { field: vf.field, op: FilterOp::Equals, value: vf.value.clone() });
            i += 1;
        }
        let mut fields: Vec<GroupByField> = Vec::new();
        let mut i: usize = 0;
        while i < self.group_by_stack.len()
            invariant
                i <= self.group_by_stack@.len(),
                fields@ == self.group_by_stack@.take(i as int),
            decreases self.group_by_stack@.len() - i,
        {
            fields.push(self.group_by_stack[i]);
            proof {
                assert(fields@ =~= self.group_by_stack@.take(i as int + 1));
            }
            i += 1;
        }
        proof {
            assert(self.group_by_stack@.take(self.group_by_stack@.len() as int)
                =~= self.group_by_stack@);
        }
        let request = Request { filters, fields };
        let query = match request.to_query() {
            Ok(q) => q,
            Err(e) => {
                // unreachable: the grouping stack always stages at least one field
                proof {
                    assert(false);
                }
                return Err(e);
            },
        };
        proof {
            assert(query@ =~~= request_query(old(self)@));
        }
        match self.link.request(query, action) {
            Ok(()) => {
                self.action = Some(Action::Wait);
                Ok(())
            },
            Err(e) => {
                self.action = Some(action);
                Err(e)
            },
        }
    }

    /// Stage the initial selection for depth zero and issue the request.
    pub fn start(&mut self) -> (r: Result<(), EngineError>)
        requires
            old(self).wf(),
            old(self)@.action is None,
        ensures
            final(self).wf(),
            final(self)@.search == old(self)@.search,
            final(self)@.groups == old(self)@.groups,
            final(self)@.parts == old(self)@.parts,
            final(self).sent_requests() == old(self).sent_requests().push(
                (request_query(old(self)@), Action::Select),
            ),
            r is Ok ==> final(self)@.action == Some(Action::Wait),
            r is Err ==> final(self)@.action == Some(Action::Select),
            r matches Err(e) ==> e == EngineError::ChannelClosed,
    {
        self.send_request(Action::Select)
    }

    /// Lay out the deepest computed depth for `rect` and hand its partitions
    /// back, or nothing when no depth is computed yet.
    pub fn items_with_size(&mut self, rect: Rect) -> (r: Option<&Vec<Partition>>)
        requires
            old(self).wf(),
            rect.wf(),
        ensures
            final(self).wf(),
            final(self).sent_requests() == old(self).sent_requests(),
            r is Some <==> old(self)@.parts.len() > 0,
            r is None ==> *final(self) == *old(self),
            r matches Some(items) ==> ({
                let n = old(self)@.parts.len() - 1;
                let old_items = old(self)@.parts[n].items;
                let total = sum(counts_of(old_items));
                &&& final(self)@.search == old(self)@.search
                &&& final(self)@.groups == old(self)@.groups
                &&& final(self)@.action == old(self)@.action
                &&& final(self)@.parts.len() == old(self)@.parts.len()
                &&& (forall|i: int| 0 <= i < n ==> final(self)@.parts[i] == old(self)@.parts[i])
                &&& final(self)@.parts[n].selected == old(self)@.parts[n].selected
                &&& final(self)@.parts[n].items.len() == old_items.len()
                &&& (forall|i: int| 0 <= i < old_items.len() ==> final(self)@.parts[n].items[i]
                    == (PartitionV {
                    rect: slice_rect(
                        rect,
                        total,
                        prefix_sum(counts_of(old_items), i),
                        prefix_sum(counts_of(old_items), i + 1),
                    ),
                    ..old_items[i]
                }))
                &&& views_of(items@) == final(self)@.parts[n].items
            }),
    {
        if self.partitions.len() == 0 {
            return None;
        }
        let n = self.partitions.len() - 1;
        let last = &mut self.partitions[n];
        last.update_layout(rect);
        proof {
            let new_parts = views_of(self.partitions@);
            let old_parts = old(self)@.parts;
            assert forall|i: int| 0 <= i < new_parts.len() && i != n as int implies new_parts[i]
                == old_parts[i] by {}
            assert(new_parts[n as int].selected == old_parts[n as int].selected);
            assert forall|i: int| 0 <= i < new_parts.len() implies partitions_v_wf(
                #[trigger] new_parts[i],
            ) by {
                if i == n as int {
                    assert(self.partitions@[i].wf());
                } else {
                    assert(new_parts[i] == old_parts[i]);
                }
            }
            assert forall|i: int| 0 <= i < self@.search.len() implies ((
            #[trigger] new_parts[i]).selected matches Some(p) && p.field == self@.search[i]) by {
                if i != n as int {
                    assert(new_parts[i] == old_parts[i]);
                }
            }
            assert forall|i: int| self@.search.len() <= i < new_parts.len() implies (
            #[trigger] new_parts[i]).selected is None by {
                if i != n as int {
                    assert(new_parts[i] == old_parts[i]);
                }
            }
        }
        Some(&self.partitions[n].items)
    }

    /// One entry per staged depth: the field grouped there, the depth, and
    /// the value selected at that depth, if any.
    pub fn current_groupings(&self) -> (r: Vec<Grouping>)
        ensures
            r@.len() == self@.groups.len(),
            forall|i: int| 0 <= i < r@.len() ==> ((#[trigger] r@[i])@ == (GroupingV {
                value: selected_value_at(self@, i),
                field: self@.groups[i],
                index: i,
            })),
    {
        let mut result: Vec<Grouping> = Vec::new();
        let mut index: usize = 0;
        while index < self.group_by_stack.len()
            invariant
                index <= self.group_by_stack@.len(),
                result@.len() == index as int,
                forall|i: int| 0 <= i < index as int ==> ((#[trigger] result@[i])@ == (GroupingV {
                    value: selected_value_at(self@, i),
                    field: self@.groups[i],
                    index: i,
                })),
            decreases self.group_by_stack@.len() - index,
        {
            let value: Option<ValueField> = if index < self.partitions.len() {
                match &self.partitions[index].selected {
                    Some(p) => Some(p.field.clone()),
                    None => None,
                }
            } else {
                None
            };
            let field = self.group_by_stack[index];
            result.push(Grouping { value, field, index });
            index += 1;
        }
        result
    }

    /// Overwrite the grouping at the depth `grouping` describes (out-of-range
    /// depths change nothing), stage a recalculation and issue the request.
    pub fn update_grouping(&mut self, grouping: &Grouping, field: &GroupByField) -> (r: Result<
        (),
        EngineError,
    >)
        requires
            old(self).wf(),
            old(self)@.action is None,
        ensures
            final(self).wf(),
            final(self)@.search == old(self)@.search,
            final(self)@.parts == old(self)@.parts,
            final(self)@.groups == (if 0 <= grouping@.index < old(self)@.groups.len() {
                old(self)@.groups.update(grouping@.index, *field)
            } else {
                old(self)@.groups
            }),
            final(self).sent_requests() == old(self).sent_requests().push(
                (request_query(final(self)@), Action::Recalculate),
            ),
            r is Ok ==> final(self)@.action == Some(Action::Wait),
            r is Err ==> final(self)@.action == Some(Action::Recalculate),
            r matches Err(e) ==> e == EngineError::ChannelClosed,
    {
        if grouping.index < self.group_by_stack.len() {
            let slot = &mut self.group_by_stack[grouping.index];
            *slot = *field;
        }
        self.send_request(Action::Recalculate)
    }

    /// Record `partition` as the choice at the deepest computed depth, push
    /// its value onto the search stack, stage the next default grouping and
    /// issue the request for the next depth. With nothing computed yet this
    /// is a no-op that reports success.
    pub fn select_partition(&mut self, partition: Partition) -> (r: Result<(), EngineError>)
        requires
            old(self).wf(),
            old(self)@.action is None,
            old(self)@.groups.len() < 5,
        ensures
            final(self).wf(),
            old(self)@.parts.len() == 0 ==> (r is Ok && *final(self) == *old(self)),
            old(self)@.parts.len() > 0 ==> ({
                &&& (r is Ok ==> final(self)@ == select_transition(old(self)@, partition@))
                &&& (r is Err ==> final(self)@ == (EngineV {
                    action: Some(Action::Select),
                    ..select_transition(old(self)@, partition@)
                }))
                &&& final(self).sent_requests() == old(self).sent_requests().push(
                    (
                        request_query(select_transition(old(self)@, partition@)),
                        Action::Select,
                    ),
                )
            }),
            r matches Err(e) ==> e == EngineError::ChannelClosed,
    {
        if self.partitions.len() == 0 {
            return Ok(());
        }
        let ghost pre = self@;
        let n = self.partitions.len() - 1;
        let field_copy = partition.field.clone();
        {
            let last = &mut self.partitions[n];
            last.selected = Some(partition);
        }
        self.search_stack.push(field_copy);
        let next = default_group_by_stack(self.group_by_stack.len());
        self.group_by_stack.push(next);
        proof {
            assert(views_of(self.partitions@) =~= select_transition(pre, partition@).parts);
            assert(views_of(self.search_stack@) =~= select_transition(pre, partition@).search);
        }
        let r = self.send_request(Action::Select);
        proof {
            if r is Ok {
                assert(self@ =~~= select_transition(pre, partition@));
            } else {
                assert(self@ =~~= (EngineV {
                    action: Some(Action::Select),
                    ..select_transition(pre, partition@)
                }));
            }
        }
        r
    }

    /// Pop the deepest entry of all three stacks and clear the selection at
    /// the depth that becomes deepest. With any stack empty this is an
    /// internal-consistency violation: it is reported and nothing changes.
    pub fn back(&mut self) -> (r: Result<(), EngineError>)
        requires
            old(self).wf(),
            old(self)@.action is None,
        ensures
            final(self).wf(),
            final(self).sent_requests() == old(self).sent_requests(),
            !back_allowed(old(self)@) ==> (*final(self) == *old(self) && (r matches Err(e) && e
                == EngineError::InvariantViolation)),
            back_allowed(old(self)@) ==> (r is Ok && final(self)@ == back_transition(old(self)@)),
    {
        if self.group_by_stack.len() == 0 || self.partitions.len() == 0
            || self.search_stack.len() == 0 {
            return Err(EngineError::InvariantViolation);
        }
        let ghost pre = self@;
        let _ = self.group_by_stack.pop();
        let _ = self.partitions.pop();
        let _ = self.search_stack.pop();
        if self.partitions.len() > 0 {
            let n = self.partitions.len() - 1;
            let last = &mut self.partitions[n];
            last.selected = None;
        }
        proof {
            assert(self.group_by_stack@ =~= back_transition(pre).groups);
            assert(views_of(self.search_stack@) =~= back_transition(pre).search);
            assert(views_of(self.partitions@) =~= back_transition(pre).parts);
            assert(self@ =~~= back_transition(pre));
        }
        Ok(())
    }

    /// Poll the link once, without blocking. Nothing waiting changes
    /// nothing; a store error is handed through unchanged; a waiting
    /// response is applied by [`Engine::apply_response`].
    pub fn process(&mut self) -> (r: Result<(), EngineError>)
        requires
            old(self).wf(),
        ensures
            final(self).wf(),
            final(self)@.search == old(self)@.search,
            final(self)@.groups == old(self)@.groups,
            final(self).sent_requests() == old(self).sent_requests(),
            r is Err ==> (final(self)@.parts == old(self)@.parts && final(self)@.action == old(
                self,
            )@.action),
            r is Ok ==> ((*final(self) == *old(self)) || final(self)@ == old(self)@ || (
            exists|items: Seq<PartitionV>|
                final(self)@ == apply_select(old(self)@, items)) || (exists|items: Seq<PartitionV>|
                final(self)@ == apply_recalculate(old(self)@, items))),
    {
        let response = match self.link.receive() {
            Ok(Some(response)) => response,
            Ok(None) => {
                return Ok(());
            },
            Err(e) => {
                return Err(e);
            },
        };
        let ghost received = response;
        let ghost mid = self@;
        let r = self.apply_response(response);
        proof {
            if r is Ok {
                match received {
                    Response::Grouped(_, action, segmentation) => {
                        if action == Action::Select {
                            assert(self@ == apply_select(mid, segmentation@.items));
                        } else {
                            assert(self@ == apply_recalculate(mid, segmentation@.items));
                        }
                    },
                    _ => {
                        assert(false);
                    },
                }
            }
        }
        r
    }

    /// Apply one worker response to the navigation stacks: a `Grouped`
    /// response tagged `Select` pushes the new deepest depth when exactly one
    /// depth is unresolved; tagged `Recalculate` it replaces the deepest
    /// depth when none is. The pending action is then cleared. A `Wait` tag,
    /// a response of another kind, or a depth mismatch is an
    /// internal-consistency violation; counts that cannot be totalled are a
    /// conversion failure. On every failure nothing changes.
    pub fn apply_response(&mut self, response: Response<Action>) -> (r: Result<(), EngineError>)
        requires
            old(self).wf(),
            old(self).link_idle(),
        ensures
            final(self).wf(),
            final(self)@.search == old(self)@.search,
            final(self)@.groups == old(self)@.groups,
            final(self).sent_requests() == old(self).sent_requests(),
            r is Err ==> *final(self) == *old(self),
            response matches Response::Grouped(_, Action::Select, segmentation) ==> ({
                if old(self)@.parts.len() != old(self)@.search.len() {
                    r == Err::<(), EngineError>(EngineError::InvariantViolation)
                } else if sum(counts_of(segmentation@.items)) > u64::MAX {
                    r == Err::<(), EngineError>(
                        EngineError::Conversion(ConversionError::CountOverflow),
                    )
                } else {
                    r is Ok && final(self)@ == apply_select(old(self)@, segmentation@.items)
                }
            }),
            response matches Response::Grouped(_, Action::Recalculate, segmentation) ==> ({
                if old(self)@.parts.len() != old(self)@.search.len() + 1 {
                    r == Err::<(), EngineError>(EngineError::InvariantViolation)
                } else if sum(counts_of(segmentation@.items)) > u64::MAX {
                    r == Err::<(), EngineError>(
                        EngineError::Conversion(ConversionError::CountOverflow),
                    )
                } else {
                    r is Ok && final(self)@ == apply_recalculate(old(self)@, segmentation@.items)
                }
            }),
            response matches Response::Grouped(_, Action::Wait, _) ==> r == Err::<(), EngineError>(
                EngineError::InvariantViolation,
            ),
            !(response matches Response::Grouped(_, _, _)) ==> r == Err::<(), EngineError>(
                EngineError::InvariantViolation,
            ),
    {
        match response {
            Response::Grouped(_query, action, segmentation) => match action {
                Action::Select => {
                    if self.partitions.len() != self.search_stack.len() {
                        return Err(EngineError::InvariantViolation);
                    }
                    let ghost pre = self@;
                    match Partitions::new(segmentation.items) {
                        Ok(p) => {
                            let ghost items = p@.items;
                            self.partitions.push(p);
                            self.action = None;
                            proof {
                                assert(views_of(self.partitions@) =~= pre.parts.push(
                                    PartitionsV { items, selected: None },
                                ));
                                assert(self@ =~~= apply_select(pre, items));
                            }
                            Ok(())
                        },
                        Err(e) => Err(EngineError::Conversion(e)),
                    }
                },
                Action::Recalculate => {
                    if self.partitions.len() != self.search_stack.len() + 1 {
                        return Err(EngineError::InvariantViolation);
                    }
                    let ghost pre = self@;
                    match Partitions::new(segmentation.items) {
                        Ok(p) => {
                            let ghost items = p@.items;
                            let n = self.partitions.len() - 1;
                            let slot = &mut self.partitions[n];
                            *slot = p;
                            self.action = None;
                            proof {
                                assert(views_of(self.partitions@) =~= pre.parts.update(
                                    pre.parts.len() - 1,
                                    PartitionsV { items, selected: None },
                                ));
                                assert(self@ =~~= apply_recalculate(pre, items));
                            }
                            Ok(())
                        },
                        Err(e) => Err(EngineError::Conversion(e)),
                    }
                },
                Action::Wait => Err(EngineError::InvariantViolation),
            },
            _ => Err(EngineError::InvariantViolation),
        }
    }

    /// The grouping fields still available at the depth `grouping`
    /// describes: every field in enumeration order that is the depth's
    /// current field or unused in the whole stack.
    pub fn available_group_by_fields(&self, grouping: &Grouping) -> (r: Vec<GroupByField>)
        ensures
            r@ == available_fields(self@.groups, grouping@.field),
    {
        let all = crate::query::default_group_by_fields();
        let mut result: Vec<GroupByField> = Vec::new();
        let mut i: usize = 0;
        proof {
            assert(group_by_field_order().take(0) =~= Seq::<GroupByField>::empty());
        }
        while i < all.len()
            invariant
                all@ == group_by_field_order(),
                i <= all@.len(),
                result@ == available_from(
                    group_by_field_order().take(i as int),
                    self@.groups,
                    grouping@.field,
                ),
            decreases all@.len() - i,
        {
            let f = all[i];
            let used = Self::stack_contains(&self.group_by_stack, f);
            if f == grouping.field || !used {
                result.push(f);
            }
            proof {
                let pre = group_by_field_order().take(i as int);
                let nxt = group_by_field_order().take(i as int + 1);
                assert(nxt.drop_last() =~= pre);
                assert(nxt.last() == f);
            }
            i += 1;
        }
        proof {
            assert(group_by_field_order().take(group_by_field_order().len() as int)
                =~= group_by_field_order());
        }
        result
    }

    /// Whether `f` occurs in the grouping stack.
    fn stack_contains(stack: &Vec<GroupByField>, f: GroupByField) -> (r: bool)
        ensures
            r == stack@.contains(f),
    {
        let mut i: usize = 0;
        while i < stack.len()
            invariant
                i <= stack@.len(),
                forall|j: int| 0 <= j < i as int ==> stack@[j] != f,
            decreases stack@.len() - i,
        {
            if stack[i] == f {
                return true;
            }
            i += 1;
        }
        false
    }

    /// Whether interaction should be disabled: nothing computed yet, or an
    /// action is pending.
    pub fn is_busy(&self) -> (r: bool)
        ensures
            r == (self@.parts.len() == 0 || self@.action is Some),
    {
        self.partitions.len() == 0 || self.action.is_some()
    }
}

} // verus!
