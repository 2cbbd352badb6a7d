use vstd::prelude::*;

use crate::error::EngineError;

verus! {

/// The views of a sequence's elements, in order.
pub open spec fn views_of<T: View>(s: Seq<T>) -> Seq<T::V> {
    s.map_values(|v: T| v@)
}

/// The dimensions a query can group records by. The declaration order is the
/// fixed enumeration order used when offering choices to the caller.
#[derive(Clone, Copy, PartialEq, Eq, Structural, Debug)]
pub enum GroupByField {
    SenderDomain,
    SenderLocalPart,
    SenderName,
    Year,
    Month,
    Day,
    ToGroup,
    ToName,
    ToAddress,
    IsReply,
    IsSend,
}

/// Every groupable dimension in the fixed enumeration order.
pub open spec fn group_by_field_order() -> Seq<GroupByField> {
    seq![
        GroupByField::SenderDomain,
        GroupByField::SenderLocalPart,
        GroupByField::SenderName,
        GroupByField::Year,
        GroupByField::Month,
        GroupByField::Day,
        GroupByField::ToGroup,
        GroupByField::ToName,
        GroupByField::ToAddress,
        GroupByField::IsReply,
        GroupByField::IsSend,
    ]
}

/// The enumeration order lists every field.
pub proof fn lemma_group_by_field_order_complete(f: GroupByField)
    ensures
        group_by_field_order().contains(f),
{
    let order = group_by_field_order();
    match f {
        GroupByField::SenderDomain => assert(order[0] == f),
        GroupByField::SenderLocalPart => assert(order[1] == f),
        GroupByField::SenderName => assert(order[2] == f),
        GroupByField::Year => assert(order[3] == f),
        GroupByField::Month => assert(order[4] == f),
        GroupByField::Day => assert(order[5] == f),
        GroupByField::ToGroup => assert(order[6] == f),
        GroupByField::ToName => assert(order[7] == f),
        GroupByField::ToAddress => assert(order[8] == f),
        GroupByField::IsReply => assert(order[9] == f),
        GroupByField::IsSend => assert(order[10] == f),
    }
}

/// The stable label of each dimension.
pub open spec fn field_label(f: GroupByField) -> Seq<char> {
    match f {
        GroupByField::SenderDomain => "Sender Domain"@,
        GroupByField::SenderLocalPart => "Sender Local Part"@,
        GroupByField::SenderName => "Sender Name"@,
        GroupByField::Year => "Year"@,
        GroupByField::Month => "Month"@,
        GroupByField::Day => "Day"@,
        GroupByField::ToGroup => "To Group"@,
        GroupByField::ToName => "To Name"@,
        GroupByField::ToAddress => "To Address"@,
        GroupByField::IsReply => "Is Reply"@,
        GroupByField::IsSend => "Is Send"@,
    }
}

impl GroupByField {
    /// A stable label for the dimension.
    pub fn as_str(&self) -> (r: &'static str)
        ensures
            r@ == field_label(*self),
    {
        match self {
            GroupByField::SenderDomain => "Sender Domain",
            GroupByField::SenderLocalPart => "Sender Local Part",
            GroupByField::SenderName => "Sender Name",
            GroupByField::Year => "Year",
            GroupByField::Month => "Month",
            GroupByField::Day => "Day",
            GroupByField::ToGroup => "To Group",
            GroupByField::ToName => "To Name",
            GroupByField::ToAddress => "To Address",
            GroupByField::IsReply => "Is Reply",
            GroupByField::IsSend => "Is Send",
        }
    }
}

/// Every groupable dimension, in the fixed enumeration order.
pub fn default_group_by_fields() -> (r: Vec<GroupByField>)
    ensures
        r@ == group_by_field_order(),
{
    let mut v: Vec<GroupByField> = Vec::new();
    v.push(GroupByField::SenderDomain);
    v.push(GroupByField::SenderLocalPart);
    v.push(GroupByField::SenderName);
    v.push(GroupByField::Year);
    v.push(GroupByField::Month);
    v.push(GroupByField::Day);
    v.push(GroupByField::ToGroup);
    v.push(GroupByField::ToName);
    v.push(GroupByField::ToAddress);
    v.push(GroupByField::IsReply);
    v.push(GroupByField::IsSend);
    proof {
        assert(v@ =~= group_by_field_order());
    }
    v
}

/// The mathematical value of a [`ValueField`].
#[verifier::ext_equal]
pub ghost struct ValueFieldV {
    pub field: GroupByField,
    pub value: Seq<char>,
}

/// A concrete value of a grouping dimension, e.g. "2023" for `Year`. It is
/// both the key of a result row and the filter value for deeper queries.
#[derive(Debug, PartialEq, Eq)]
pub struct ValueField {
    pub field: GroupByField,
    pub value: String,
}

impl View for ValueField {
    type V = ValueFieldV;

    open spec fn view(&self) -> ValueFieldV {
        ValueFieldV { field: self.field, value: self.value@ }
    }
}

impl Clone for ValueField {
    fn clone(&self) -> (r: Self)
        ensures
            r@ == self@,
    {
        ValueField { field: self.field, value: self.value.clone() }
    }
}

impl ValueField {
    /// The dimension this value belongs to.
    pub fn field(&self) -> (r: GroupByField)
        ensures
            r == self@.field,
    {
        self.field
    }

    /// The concrete group value as text.
    pub fn value(&self) -> (r: &str)
        ensures
            r@ == self@.value,
    {
        self.value.as_str()
    }
}

/// How a filter predicate compares the record's field against the value.
#[derive(Clone, Copy, PartialEq, Eq, Structural, Debug)]
pub enum FilterOp {
    Equals,
}

/// The mathematical value of a [`Filter`].
#[verifier::ext_equal]
pub ghost struct FilterV {
    pub field: GroupByField,
    pub op: FilterOp,
    pub value: Seq<char>,
}

/// One predicate of a query: field, operator, value.
#[derive(Debug, PartialEq, Eq)]
pub struct Filter {
    pub field: GroupByField,
    pub op: FilterOp,
    pub value: String,
}

impl View for Filter {
    type V = FilterV;

    open spec fn view(&self) -> FilterV {
        FilterV { field: self.field, op: self.op, value: self.value@ }
    }
}

impl Clone for Filter {
    fn clone(&self) -> (r: Self)
        ensures
            r@ == self@,
    {
        Filter { field: self.field, op: self.op, value: self.value.clone() }
    }
}

/// The filter that pins a dimension to a previously selected value.
pub open spec fn filter_of(v: ValueFieldV) -> FilterV {
    FilterV { field: v.field, op: FilterOp::Equals, value: v.value }
}

/// The mathematical value of a [`Query`].
#[verifier::ext_equal]
pub ghost enum QueryV {
    Grouped { filters: Seq<FilterV>, group_by: GroupByField },
    Normal { filters: Seq<FilterV> },
    Other { filters: Seq<FilterV> },
}

/// A declarative request against the store. The declared kind decides the
/// shape of the rows that come back: one aggregate count per distinct group
/// value, raw column projections, or a collection of distinct scalar values.
#[derive(Debug, PartialEq, Eq)]
pub enum Query {
    Grouped { filters: Vec<Filter>, group_by: GroupByField },
    Normal { filters: Vec<Filter> },
    Other { filters: Vec<Filter> },
}

impl View for Query {
    type V = QueryV;

    open spec fn view(&self) -> QueryV {
        match self {
            Query::Grouped { filters, group_by } => QueryV::Grouped {
                filters: views_of(filters@),
                group_by: *group_by,
            },
            Query::Normal { filters } => QueryV::Normal {
                filters: views_of(filters@),
            },
            Query::Other { filters } => QueryV::Other {
                filters: views_of(filters@),
            },
        }
    }
}

/// The mathematical value of a [`Request`].
#[verifier::ext_equal]
pub ghost struct RequestV {
    pub filters: Seq<FilterV>,
    pub fields: Seq<GroupByField>,
}

/// What the navigation layer hands to the worker: the accumulated filters and
/// the grouping stack. Only the deepest field is grouped by; the shallower
/// ones are already constrained by the filters.
#[derive(Debug, PartialEq, Eq)]
pub struct Request {
    pub filters: Vec<Filter>,
    pub fields: Vec<GroupByField>,
}

impl View for Request {
    type V = RequestV;

    open spec fn view(&self) -> RequestV {
        RequestV {
            filters: views_of(self.filters@),
            fields: self.fields@,
        }
    }
}

impl Request {
    /// The grouped query this request stands for: keep the filters and group
    /// by the deepest staged field. A request without a staged grouping is a
    /// caller error.
    pub fn to_query(self) -> (r: Result<Query, EngineError>)
        ensures
            r is Ok <==> self@.fields.len() > 0,
            r matches Ok(q) ==> q@ == (QueryV::Grouped {
                filters: self@.filters,
                group_by: self@.fields.last(),
            }),
            r matches Err(e) ==> e == EngineError::InvariantViolation,
    {
        if self.fields.len() == 0 {
            Err(EngineError::InvariantViolation)
        } else {
            let group_by = self.fields[self.fields.len() - 1];
            Ok(Query::Grouped { filters: self.filters, group_by })
        }
    }
}

/// One raw projected row of a non-grouped query.
#[derive(Debug, PartialEq, Eq)]
pub struct QueryRow {
    pub values: Vec<ValueField>,
}

/// The mathematical value of a [`QueryRow`].
#[verifier::ext_equal]
pub ghost struct QueryRowV {
    pub values: Seq<ValueFieldV>,
}

impl View for QueryRow {
    type V = QueryRowV;

    open spec fn view(&self) -> QueryRowV {
        QueryRowV { values: views_of(self.values@) }
    }
}

impl Clone for QueryRow {
    fn clone(&self) -> (r: Self)
        ensures
            r@ == self@,
    {
        let mut values: Vec<ValueField> = Vec::new();
        let mut i: usize = 0;
        while i < self.values.len()
            invariant
                i <= self.values.len(),
                values@.len() == i as int,
                forall|j: int| 0 <= j < i as int ==> values@[j]@ == self.values@[j]@,
            decreases self.values.len() - i,
        {
            values.push(self.values[i].clone());
            i += 1;
        }
        proof {
            assert forall|j: int| 0 <= j < views_of(values@).len() implies
                views_of(values@)[j] == views_of(self.values@)[j] by {
                assert(values@[j]@ == self.values@[j]@);
            }
            assert(views_of(values@) =~= views_of(self.values@));
        }
        QueryRow { values }
    }
}

/// The mathematical value of a [`QueryResult`].
pub ghost enum QueryResultV {
    /// One distinct group value and how many records carry it.
    Grouped(ValueFieldV, u64),
    /// One raw projected row.
    Normal(QueryRowV),
    /// One collection of scalar values from a distinct-value scan.
    Other(Seq<Seq<char>>),
}

/// One row returned by the store. Its shape must match the declared kind of
/// the query that produced it.
#[derive(Debug, PartialEq, Eq)]
pub enum QueryResult {
    Grouped(ValueField, u64),
    Normal(QueryRow),
    Other(Vec<String>),
}

impl View for QueryResult {
    type V = QueryResultV;

    open spec fn view(&self) -> QueryResultV {
        match self {
            QueryResult::Grouped(v, c) => QueryResultV::Grouped(v@, *c),
            QueryResult::Normal(row) => QueryResultV::Normal(row@),
            QueryResult::Other(vals) => QueryResultV::Other(
                views_of(vals@),
            ),
        }
    }
}

} // verus!
