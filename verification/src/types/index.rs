//! Indexes of a table, and how a scan uses them.

use crate::catalog::TableName;
use crate::expression::range_detacher::{Bound, Range, RangeView};
use crate::planner::arena::ExprRef;
use crate::planner::operator::{SortOption, SortOptionView};
use crate::types::value::DataValue;
use crate::types::{ColumnId, LogicalType, LogicalTypeView};
use vstd::prelude::*;

verus! {

/// Number of an index in its table.
pub type IndexId = u32;

/// Reference to an index of an arena.
#[derive(Clone, Copy, Debug, PartialEq, Eq, Hash, Structural)]
pub struct IndexMetaRef(pub usize);

/// Kinds of index.
#[derive(Clone, Copy, Debug, PartialEq, Eq, Hash, Structural)]
pub enum IndexType {
    PrimaryKey { is_multiple: bool },
    Unique,
    Normal,
    Composite,
}

/// An index: its columns, in order, and the types of its keys.
#[derive(Debug, PartialEq, Eq, Hash)]
pub struct IndexMeta {
    pub id: IndexId,
    pub column_ids: Vec<ColumnId>,
    pub table_name: TableName,
    pub pk_ty: LogicalType,
    pub value_ty: LogicalType,
    pub name: String,
    pub ty: IndexType,
}

/// Mathematical model of an [`IndexMeta`].
pub struct IndexMetaView {
    pub id: IndexId,
    pub column_ids: Seq<ColumnId>,
    pub table_name: Seq<char>,
    pub pk_ty: LogicalTypeView,
    pub value_ty: LogicalTypeView,
    pub name: Seq<char>,
    pub ty: IndexType,
}

impl View for IndexMeta {
    type V = IndexMetaView;

    open spec fn view(&self) -> IndexMetaView {
        IndexMetaView {
            id: self.id,
            column_ids: self.column_ids@,
            table_name: self.table_name@,
            pk_ty: self.pk_ty@,
            value_ty: self.value_ty@,
            name: self.name@,
            ty: self.ty,
        }
    }
}

impl IndexMetaView {
    /// The type of each column of the index.
    pub open spec fn column_types(self) -> Seq<LogicalTypeView> {
        match self.value_ty {
            LogicalTypeView::Tuple(types) => types,
            ty => seq![ty],
        }
    }
}

impl Clone for IndexMeta {
    fn clone(&self) -> (res: Self)
        ensures
            res@ == self@,
    {
        let column_ids = self.column_ids.clone();
        assert(column_ids@ =~= self.column_ids@);
        IndexMeta {
            id: self.id,
            column_ids,
            table_name: self.table_name.clone(),
            pk_ty: self.pk_ty.clone(),
            value_ty: self.value_ty.clone(),
            name: self.name.clone(),
            ty: self.ty,
        }
    }
}

/// How an index is searched: by ranges known from the plan, or by a key of the running query.
#[derive(Debug, PartialEq, Eq, Hash)]
pub enum IndexLookup {
    Static(Range),
    Probe,
}

/// Mathematical model of an [`IndexLookup`].
pub enum IndexLookupView {
    Static(RangeView),
    Probe,
}

impl View for IndexLookup {
    type V = IndexLookupView;

    open spec fn view(&self) -> IndexLookupView {
        match self {
            IndexLookup::Static(range) => IndexLookupView::Static(range@),
            IndexLookup::Probe => IndexLookupView::Probe,
        }
    }
}

impl Clone for IndexLookup {
    fn clone(&self) -> (res: Self)
        ensures
            res@ == self@,
    {
        match self {
            IndexLookup::Static(range) => IndexLookup::Static(range.clone()),
            IndexLookup::Probe => IndexLookup::Probe,
        }
    }
}

/// Key that a running query hands to an index scan.
#[derive(Debug, PartialEq, Eq, Hash)]
pub enum RuntimeIndexProbe {
    Eq(DataValue),
    Scope { min: Bound, max: Bound },
}

/// Note that an index delivers an order that an operator above the scan asks for.
#[derive(Clone, Copy, Debug, PartialEq, Eq, Hash, Structural)]
pub struct IndexOrderHint {
    pub covered: usize,
}

impl IndexOrderHint {
    pub fn new(cover_num: usize) -> (res: Self)
        ensures
            res.covered == cover_num,
    {
        IndexOrderHint { covered: cover_num }
    }

    /// How many keys of the order the index covers.
    pub fn cover_num(&self) -> (res: usize)
        ensures
            res == self.covered,
    {
        self.covered
    }

    /// Keeps the larger number of covered keys.
    pub fn merge_cover_num(&mut self, cover_num: usize)
        ensures
            final(self).covered == if cover_num > old(self).covered {
                cover_num
            } else {
                old(self).covered
            },
    {
        if cover_num > self.covered {
            self.covered = cover_num;
        }
    }
}

/// How one part of an index key is read back: decoded, or skipped.
#[derive(Debug, PartialEq, Eq, Hash)]
pub enum TupleValueSerializableImpl {
    Read(LogicalType),
    Skip(LogicalType),
}

/// Mathematical model of a [`TupleValueSerializableImpl`].
pub enum SerializerView {
    Read(LogicalTypeView),
    Skip(LogicalTypeView),
}

impl View for TupleValueSerializableImpl {
    type V = SerializerView;

    open spec fn view(&self) -> SerializerView {
        match self {
            TupleValueSerializableImpl::Read(ty) => SerializerView::Read(ty@),
            TupleValueSerializableImpl::Skip(ty) => SerializerView::Skip(ty@),
        }
    }
}

impl Clone for TupleValueSerializableImpl {
    fn clone(&self) -> (res: Self)
        ensures
            res@ == self@,
    {
        match self {
            TupleValueSerializableImpl::Read(ty) => TupleValueSerializableImpl::Read(ty.clone()),
            TupleValueSerializableImpl::Skip(ty) => TupleValueSerializableImpl::Skip(ty.clone()),
        }
    }
}

impl LogicalType {
    /// Reads a value of this type back.
    pub fn serializable(&self) -> (res: TupleValueSerializableImpl)
        ensures
            res@ == SerializerView::Read(self@),
    {
        TupleValueSerializableImpl::Read(self.clone())
    }

    /// Skips a value of this type.
    pub fn skip_serializable(&self) -> (res: TupleValueSerializableImpl)
        ensures
            res@ == SerializerView::Skip(self@),
    {
        TupleValueSerializableImpl::Skip(self.clone())
    }
}

/// An index as one scan may use it.
#[derive(Debug, PartialEq, Eq, Hash)]
pub struct IndexInfo {
    pub meta: IndexMetaRef,
    pub sort_option: SortOption,
    pub lookup: Option<IndexLookup>,
    pub residual_predicate: Option<ExprRef>,
    pub covered_deserializers: Option<Vec<TupleValueSerializableImpl>>,
    pub cover_mapping: Option<Vec<usize>>,
    pub sort_elimination_hint: Option<IndexOrderHint>,
    pub stream_aggregate_hint: Option<IndexOrderHint>,
}

/// Mathematical model of an [`IndexInfo`].
pub struct IndexInfoView {
    pub meta: IndexMetaRef,
    pub sort_option: SortOptionView,
    pub lookup: Option<IndexLookupView>,
    pub residual_predicate: Option<ExprRef>,
    pub covered_deserializers: Option<Seq<SerializerView>>,
    pub cover_mapping: Option<Seq<usize>>,
    pub sort_elimination_hint: Option<IndexOrderHint>,
    pub stream_aggregate_hint: Option<IndexOrderHint>,
}

/// The models of the deserializers.
pub open spec fn serializer_views(list: Seq<TupleValueSerializableImpl>) -> Seq<SerializerView> {
    list.map_values(|item: TupleValueSerializableImpl| item@)
}

impl View for IndexInfo {
    type V = IndexInfoView;

    open spec fn view(&self) -> IndexInfoView {
        IndexInfoView {
            meta: self.meta,
            sort_option: self.sort_option@,
            lookup: match self.lookup {
                Some(lookup) => Some(lookup@),
                None => None,
            },
            residual_predicate: self.residual_predicate,
            covered_deserializers: match self.covered_deserializers {
                Some(list) => Some(serializer_views(list@)),
                None => None,
            },
            cover_mapping: match self.cover_mapping {
                Some(list) => Some(list@),
                None => None,
            },
            sort_elimination_hint: self.sort_elimination_hint,
            stream_aggregate_hint: self.stream_aggregate_hint,
        }
    }
}

/// The models of the indexes of a scan.
pub open spec fn info_views(infos: Seq<IndexInfo>) -> Seq<IndexInfoView> {
    infos.map_values(|info: IndexInfo| info@)
}

/// Copies the way in which a covering index is read.
pub fn clone_deserializers(list: &Option<Vec<TupleValueSerializableImpl>>) -> (res: Option<
    Vec<TupleValueSerializableImpl>,
>)
    ensures
        res is Some <==> list is Some,
        res matches Some(l) ==> serializer_views(l@) == serializer_views(list->0@),
{
    match list {
        Some(list) => {
            let mut out: Vec<TupleValueSerializableImpl> = Vec::new();
            let mut i: usize = 0;
            while i < list.len()
                invariant
                    i <= list.len(),
                    out@.len() == i,
                    forall|j: int| 0 <= j < i ==> out@[j]@ == list@[j]@,
                decreases list.len() - i,
            {
                let item = list[i].clone();
                out.push(item);
                i += 1;
            }
            assert(serializer_views(out@) =~= serializer_views(list@));
            Some(out)
        },
        None => None,
    }
}

/// Copies the way in which a covering index is reordered.
pub fn clone_mapping(list: &Option<Vec<usize>>) -> (res: Option<Vec<usize>>)
    ensures
        res is Some <==> list is Some,
        res matches Some(l) ==> l@ == list->0@,
{
    match list {
        Some(list) => {
            let out = list.clone();
            assert(out@ =~= list@);
            Some(out)
        },
        None => None,
    }
}

impl Clone for IndexInfo {
    fn clone(&self) -> (res: Self)
        ensures
            res@ == self@,
    {
        IndexInfo {
            meta: self.meta,
            sort_option: self.sort_option.clone(),
            lookup: match &self.lookup {
                Some(lookup) => Some(lookup.clone()),
                None => None,
            },
            residual_predicate: self.residual_predicate,
            covered_deserializers: clone_deserializers(&self.covered_deserializers),
            cover_mapping: clone_mapping(&self.cover_mapping),
            sort_elimination_hint: self.sort_elimination_hint,
            stream_aggregate_hint: self.stream_aggregate_hint,
        }
    }
}

} // verus!
