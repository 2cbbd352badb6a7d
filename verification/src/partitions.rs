use vstd::prelude::*;

use crate::error::ConversionError;
use crate::layout::{layout_rects, prefix_sum, slice_rect, sum, Rect};
use crate::layout::{lemma_prefix_sum_bounds, lemma_prefix_sum_succ};
use crate::query::{views_of, QueryResult, QueryResultV, QueryRow, ValueField, ValueFieldV};

verus! {

/// The mathematical value of a [`Partition`].
#[verifier::ext_equal]
pub ghost struct PartitionV {
    pub field: ValueFieldV,
    pub count: u64,
    pub rect: Rect,
}

/// A navigation-ready unit: one distinct group value, the number of records
/// carrying it, and the rectangle the layout step assigned to it.
#[derive(Debug, PartialEq, Eq)]
pub struct Partition {
    pub field: ValueField,
    pub count: u64,
    pub rect: Rect,
}

impl View for Partition {
    type V = PartitionV;

    open spec fn view(&self) -> PartitionV {
        PartitionV { field: self.field@, count: self.count, rect: self.rect }
    }
}

impl Clone for Partition {
    fn clone(&self) -> (r: Self)
        ensures
            r@ == self@,
    {
        Partition { field: self.field.clone(), count: self.count, rect: self.rect }
    }
}

impl Partition {
    /// A fresh partition for one group value; the layout step assigns its
    /// rectangle later.
    pub fn new(field: ValueField, count: u64) -> (r: Self)
        ensures
            r@ == (PartitionV { field: field@, count, rect: Rect::zero_spec() }),
    {
        Partition { field, count, rect: Rect::zero() }
    }

    /// The rectangle the last layout assigned to this partition.
    pub fn layout_rect(&self) -> (r: Rect)
        ensures
            r == self@.rect,
    {
        self.rect
    }
}

/// The counts of a sequence of partitions, in order.
pub open spec fn counts_of(items: Seq<PartitionV>) -> Seq<u64> {
    items.map_values(|p: PartitionV| p.count)
}

/// The mathematical value of a [`Partitions`].
#[verifier::ext_equal]
pub ghost struct PartitionsV {
    pub items: Seq<PartitionV>,
    pub selected: Option<PartitionV>,
}

/// The counts of one depth's partitions admit a total, so a layout can
/// always be computed for them.
pub open spec fn partitions_v_wf(p: PartitionsV) -> bool {
    sum(counts_of(p.items)) <= u64::MAX
}

/// One navigation depth's full set of partitions, plus the user's choice at
/// that depth, if any.
#[derive(Debug, PartialEq, Eq)]
pub struct Partitions {
    pub items: Vec<Partition>,
    pub selected: Option<Partition>,
}

impl View for Partitions {
    type V = PartitionsV;

    open spec fn view(&self) -> PartitionsV {
        PartitionsV {
            items: views_of(self.items@),
            selected: match self.selected {
                Some(p) => Some(p@),
                None => None,
            },
        }
    }
}

impl Partitions {
    /// The counts can be totalled, see [`partitions_v_wf`].
    pub open spec fn wf(&self) -> bool {
        partitions_v_wf(self@)
    }

    /// Wrap freshly converted partitions for one depth; nothing is selected
    /// yet. Fails when the counts cannot be added into one machine word.
    pub fn new(items: Vec<Partition>) -> (r: Result<Partitions, ConversionError>)
        ensures
            r is Ok <==> sum(counts_of(views_of(items@))) <= u64::MAX,
            r matches Ok(p) ==> p@ == (PartitionsV { items: views_of(items@), selected: None }),
            r matches Err(e) ==> e == ConversionError::CountOverflow,
    {
        let ghost counts = counts_of(views_of(items@));
        proof {
            assert(counts.take(0) =~= Seq::<u64>::empty());
        }
        let mut total: u64 = 0;
        let mut i: usize = 0;
        while i < items.len()
            invariant
                i <= items@.len(),
                counts == counts_of(views_of(items@)),
                counts.len() == items@.len(),
                total == prefix_sum(counts, i as int),
            decreases items@.len() - i,
        {
            proof {
                lemma_prefix_sum_succ(counts, i as int);
            }
            let c = items[i].count;
            if c > u64::MAX - total {
                proof {
                    lemma_prefix_sum_bounds(counts, i as int + 1);
                }
                return Err(ConversionError::CountOverflow);
            }
            total = total + c;
            i += 1;
        }
        proof {
            assert(counts.take(items@.len() as int) =~= counts);
        }
        Ok(Partitions { items, selected: None })
    }

    /// Assign every partition its slice of `rect`, proportional to its count
    /// relative to the total of this depth. Everything else is untouched.
    pub fn update_layout(&mut self, rect: Rect)
        requires
            old(self).wf(),
            rect.wf(),
        ensures
            final(self)@.selected == old(self)@.selected,
            final(self)@.items.len() == old(self)@.items.len(),
            forall|i: int| 0 <= i < old(self)@.items.len()
                ==> final(self)@.items[i] == (PartitionV {
                    rect: slice_rect(
                        rect,
                        sum(counts_of(old(self)@.items)),
                        prefix_sum(counts_of(old(self)@.items), i),
                        prefix_sum(counts_of(old(self)@.items), i + 1),
                    ),
                    ..old(self)@.items[i]
                }),
            final(self).wf(),
    {
        let ghost old_items = self@.items;
        let mut counts: Vec<u64> = Vec::new();
        let mut i: usize = 0;
        while i < self.items.len()
            invariant
                i <= self.items@.len(),
                counts@.len() == i as int,
                old_items == views_of(self.items@),
                forall|j: int| 0 <= j < i as int ==> counts@[j] == self.items@[j]@.count,
            decreases self.items@.len() - i,
        {
            counts.push(self.items[i].count);
            i += 1;
        }
        proof {
            assert(counts@ =~= counts_of(old_items));
        }
        let rects = layout_rects(rect, &counts);
        let mut new_items: Vec<Partition> = Vec::new();
        let mut i: usize = 0;
        while i < self.items.len()
            invariant
                i <= self.items@.len(),
                new_items@.len() == i as int,
                old_items == views_of(self.items@),
                counts@ == counts_of(old_items),
                rects@.len() == self.items@.len(),
                forall|k: int| 0 <= k < counts@.len() ==> rects@[k] == slice_rect(
                    rect,
                    sum(counts@),
                    prefix_sum(counts@, k),
                    prefix_sum(counts@, k + 1),
                ),
                forall|j: int| 0 <= j < i as int
                    ==> new_items@[j]@ == (PartitionV { rect: rects@[j], ..old_items[j] }),
            decreases self.items@.len() - i,
        {
            let p = &self.items[i];
            new_items.push(Partition { field: p.field.clone(), count: p.count, rect: rects[i] });
            i += 1;
        }
        self.items = new_items;
        proof {
            assert(counts_of(views_of(self.items@)) =~= counts_of(old_items));
        }
    }
}

/// The partition a grouped-aggregate row converts to, before any layout.
pub open spec fn partition_of_row(r: QueryResultV) -> PartitionV
    recommends
        r is Grouped,
{
    match r {
        QueryResultV::Grouped(v, c) => PartitionV { field: v, count: c, rect: Rect::zero_spec() },
        _ => PartitionV {
            field: ValueFieldV { field: crate::query::GroupByField::Year, value: Seq::empty() },
            count: 0,
            rect: Rect::zero_spec(),
        },
    }
}

/// Convert grouped-aggregate rows into partitions, one per row and in row
/// order. A row of any other shape means the store broke the query contract.
pub fn calculate_partitions(result: &[QueryResult]) -> (r: Result<
    Vec<Partition>,
    ConversionError,
>)
    ensures
        r is Ok <==> (forall|i: int| 0 <= i < result@.len() ==> (#[trigger] result@[i])@
            is Grouped),
        r matches Ok(ps) ==> {
            &&& ps@.len() == result@.len()
            &&& forall|i: int| 0 <= i < result@.len()
                ==> views_of(ps@)[i] == partition_of_row((#[trigger] result@[i])@)
        },
        r matches Err(e) ==> e == ConversionError::UnexpectedShape,
{
    let mut ps: Vec<Partition> = Vec::new();
    let mut i: usize = 0;
    while i < result.len()
        invariant
            i <= result@.len(),
            ps@.len() == i as int,
            forall|j: int| 0 <= j < i as int ==> (#[trigger] result@[j])@ is Grouped,
            forall|j: int| 0 <= j < i as int ==> ps@[j]@ == partition_of_row(
                (#[trigger] result@[j])@,
            ),
        decreases result@.len() - i,
    {
        match &result[i] {
            QueryResult::Grouped(v, c) => {
                ps.push(Partition { field: v.clone(), count: *c, rect: Rect::zero() });
            },
            _ => {
                return Err(ConversionError::UnexpectedShape);
            },
        }
        i += 1;
    }
    proof {
        assert forall|i: int| 0 <= i < result@.len() implies views_of(ps@)[i] == partition_of_row(
            (#[trigger] result@[i])@,
        ) by {
            assert(ps@[i]@ == partition_of_row(result@[i]@));
        }
    }
    Ok(ps)
}

/// The counts carried by grouped rows, with zero standing in for rows of any
/// other shape.
pub open spec fn row_counts(rows: Seq<QueryResultV>) -> Seq<u64> {
    rows.map_values(
        |r: QueryResultV|
            match r {
                QueryResultV::Grouped(_, c) => c,
                _ => 0u64,
            },
    )
}

/// Convert grouped-aggregate rows into one depth's partition set: one
/// partition per row, nothing selected. Fails on a row of the wrong shape or
/// on counts that cannot be totalled.
pub fn calculate_segmentations(result: &[QueryResult]) -> (r: Result<Partitions, ConversionError>)
    ensures
        r is Ok <==> ((forall|i: int| 0 <= i < result@.len() ==> (#[trigger] result@[i])@
            is Grouped) && sum(row_counts(views_of(result@))) <= u64::MAX),
        r matches Ok(p) ==> {
            &&& p@.selected is None
            &&& p@.items.len() == result@.len()
            &&& forall|i: int| 0 <= i < result@.len()
                ==> p@.items[i] == partition_of_row((#[trigger] result@[i])@)
            &&& p.wf()
        },
        r matches Err(e) ==> {
            &&& (e == ConversionError::UnexpectedShape || e == ConversionError::CountOverflow)
            &&& e == ConversionError::UnexpectedShape ==> exists|i: int|
                0 <= i < result@.len() && !((#[trigger] result@[i])@ is Grouped)
            &&& e == ConversionError::CountOverflow ==> sum(row_counts(views_of(result@)))
                > u64::MAX
        },
{
    let items = match calculate_partitions(result) {
        Ok(items) => items,
        Err(e) => {
            return Err(e);
        },
    };
    proof {
        assert(counts_of(views_of(items@)) =~= row_counts(views_of(result@)));
    }
    Partitions::new(items)
}

/// Keep the raw projected rows of a flat query, in order. A row of any other
/// shape means the store broke the query contract.
pub fn calculate_rows(result: &[QueryResult]) -> (r: Result<Vec<QueryRow>, ConversionError>)
    ensures
        r is Ok <==> (forall|i: int| 0 <= i < result@.len() ==> (#[trigger] result@[i])@
            is Normal),
        r matches Ok(rows) ==> {
            &&& rows@.len() == result@.len()
            &&& forall|i: int| 0 <= i < result@.len()
                ==> ((#[trigger] result@[i])@ matches QueryResultV::Normal(row)
                    && views_of(rows@)[i] == row)
        },
        r matches Err(e) ==> e == ConversionError::UnexpectedShape,
{
    let mut rows: Vec<QueryRow> = Vec::new();
    let mut i: usize = 0;
    while i < result.len()
        invariant
            i <= result@.len(),
            rows@.len() == i as int,
            forall|j: int| 0 <= j < i as int ==> (#[trigger] result@[j])@ is Normal,
            forall|j: int| 0 <= j < i as int
                ==> ((#[trigger] result@[j])@ matches QueryResultV::Normal(row) && rows@[j]@
                    == row),
        decreases result@.len() - i,
    {
        match &result[i] {
            QueryResult::Normal(row) => {
                rows.push(row.clone());
            },
            _ => {
                return Err(ConversionError::UnexpectedShape);
            },
        }
        i += 1;
    }
    proof {
        assert forall|i: int| 0 <= i < result@.len() implies (#[trigger] result@[i])@ matches
            QueryResultV::Normal(row) && views_of(rows@)[i] == row by {
            assert(rows@[i]@ == views_of(rows@)[i]);
        }
    }
    Ok(rows)
}

} // verus!
