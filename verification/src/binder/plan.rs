//! Binding of plans.

use crate::binder::scan::{bind_indexes, name_columns, scan_view, source_view};
use crate::binder::{
    lemma_known_extended, pending_views, sub_known, table_known, Binder, BinderView, BoundSource,
    SourceView, SubQuery, SubQueryKind, SubQueryView,
};
use crate::catalog::{ColumnRef, TableName};
use crate::errors::DatabaseError;
use crate::orm::scope::lemma_extended_trans;
use crate::planner::arena::{ArenaView, ExprRef, PlanArena};
use crate::planner::operator::aggregate::{AggregateOperator, AggregateView};
use crate::planner::operator::ddl::TruncateOperator;
use crate::planner::operator::dml::{
    AnalyzeOperator, AnalyzeView, DeleteOperator, DeleteView, InsertOperator, UpdateOperator,
    UpdateView,
};
use crate::planner::operator::filter::FilterOperator;
use crate::planner::operator::join::{JoinCondition, JoinOperator, JoinType, JoinView};
use crate::planner::operator::limit::LimitOperator;
use crate::planner::operator::mark_apply::{MarkApplyKind, MarkApplyOperator, MarkApplyView};
use crate::planner::operator::project::ProjectOperator;
use crate::planner::operator::sort::{SortField, SortOperator};
use crate::planner::operator::table_scan::TableScanOperator;
use crate::planner::operator::values::{row_views, ValuesOperator, ValuesView};
use crate::planner::operator::{Operator, OperatorView, ScalarApplyOperator, ScalarSubqueryOperator};
use crate::planner::schema::lemma_plan_valid_within;
use crate::planner::{ChildrenView, Childrens, LogicalPlan, PlanView};
use crate::types::index::IndexMetaRef;
use crate::types::value::DataValue;
use vstd::prelude::*;

verus! {

/// Whether a plan refers to what is in the arena only, and every operator has its inputs.
pub open spec fn bound(plan: PlanView, arena: ArenaView) -> bool {
    plan.valid(arena) && plan.shaped()
}

/// A plan without inputs.
pub open spec fn leaf(operator: OperatorView) -> PlanView {
    PlanView { operator, children: ChildrenView::Leaf, physical: None, schema: None }
}

/// A plan over one input.
pub open spec fn over(operator: OperatorView, input: PlanView) -> PlanView {
    PlanView {
        operator,
        children: ChildrenView::Only(Box::new(input)),
        physical: None,
        schema: None,
    }
}

/// A plan over two inputs.
pub open spec fn pair(operator: OperatorView, left: PlanView, right: PlanView) -> PlanView {
    PlanView {
        operator,
        children: ChildrenView::Twins { left: Box::new(left), right: Box::new(right) },
        physical: None,
        schema: None,
    }
}

/// A filter.
pub open spec fn filter_view(predicate: ExprRef, having: bool, input: PlanView) -> PlanView {
    over(
        OperatorView::Filter(FilterOperator { predicate, is_optimized: false, having }),
        input,
    )
}

/// One subquery joined to the plan that needs it.
pub open spec fn attached_one(plan: PlanView, sub: SubQueryView) -> PlanView {
    match sub.kind {
        SubQueryKind::Scalar => pair(
            OperatorView::Plain(Operator::ScalarApply(ScalarApplyOperator)),
            plan,
            over(OperatorView::Plain(Operator::ScalarSubquery(ScalarSubqueryOperator)), sub.plan),
        ),
        SubQueryKind::Exists => pair(
            OperatorView::MarkApply(
                MarkApplyView {
                    kind: MarkApplyKind::Exists,
                    predicates: Seq::empty(),
                    output_column: Some(sub.column),
                    parameterized_probe: None,
                },
            ),
            plan,
            sub.plan,
        ),
        SubQueryKind::Quantified(quantifier, predicate) => pair(
            OperatorView::MarkApply(
                MarkApplyView {
                    kind: MarkApplyKind::Quantified(quantifier),
                    predicates: seq![predicate],
                    output_column: Some(sub.column),
                    parameterized_probe: None,
                },
            ),
            plan,
            sub.plan,
        ),
    }
}

/// The subqueries joined to the plan that needs them, in order.
pub open spec fn attached(plan: PlanView, pending: Seq<SubQueryView>) -> PlanView
    decreases pending.len(),
{
    if pending.len() == 0 {
        plan
    } else {
        attached_one(attached(plan, pending.drop_last()), pending.last())
    }
}

/// Joined subqueries keep a plan bound.
pub proof fn lemma_attached(plan: PlanView, pending: Seq<SubQueryView>, arena: ArenaView)
    requires
        bound(plan, arena),
        forall|i: int| 0 <= i < pending.len() ==> sub_known(#[trigger] pending[i], arena),
    ensures
        bound(attached(plan, pending), arena),
    decreases pending.len(),
{
    if pending.len() > 0 {
        lemma_attached(plan, pending.drop_last(), arena);
        let sub = pending.last();
        assert(sub_known(pending[pending.len() - 1], arena));
        let inner = attached(plan, pending.drop_last());
        match sub.kind {
            SubQueryKind::Scalar => {
                let right = over(
                    OperatorView::Plain(Operator::ScalarSubquery(ScalarSubqueryOperator)),
                    sub.plan,
                );
                assert(bound(right, arena));
            },
            _ => {},
        }
    }
}

fn attach_one(plan: LogicalPlan, sub: SubQuery) -> (res: LogicalPlan)
    ensures
        res@ == attached_one(plan@, sub@),
{
    match sub.kind {
        SubQueryKind::Scalar => {
            let right = LogicalPlan::new(
                Operator::ScalarSubquery(ScalarSubqueryOperator),
                Childrens::Only(Box::new(sub.plan)),
            );
            assert(right@ == over(
                OperatorView::Plain(Operator::ScalarSubquery(ScalarSubqueryOperator)),
                sub.plan@,
            ));
            LogicalPlan::new(
                Operator::ScalarApply(ScalarApplyOperator),
                Childrens::Twins { left: Box::new(plan), right: Box::new(right) },
            )
        },
        SubQueryKind::Exists => MarkApplyOperator::build_exists(
            plan,
            sub.plan,
            sub.column,
            Vec::new(),
        ),
        SubQueryKind::Quantified(quantifier, predicate) => {
            let mut predicates: Vec<ExprRef> = Vec::new();
            predicates.push(predicate);
            assert(predicates@ =~= seq![predicate]);
            MarkApplyOperator::build_quantified(plan, sub.plan, quantifier, sub.column, predicates)
        },
    }
}

impl<'a> Binder<'a> {
    /// Joins the waiting subqueries to the plan that needs them.
    pub fn attach_subqueries(&mut self, plan: LogicalPlan) -> (res: LogicalPlan)
        ensures
            res@ == attached(plan@, old(self)@.pending),
            final(self)@ == (BinderView { pending: Seq::empty(), ..old(self)@ }),
    {
        let ghost before = self@;
        let mut pending: Vec<SubQuery> = Vec::new();
        std::mem::swap(&mut pending, &mut self.pending);
        assert(self@.pending =~= Seq::empty());
        let ghost all = pending_views(pending@);
        assert(all =~= before.pending);
        let mut res = plan;
        let mut rest: Vec<SubQuery> = Vec::new();
        while pending.len() > 0
            invariant
                pending_views(pending@ + rest@.reverse()) =~= all,
            decreases pending.len(),
        {
            let ghost whole = pending@ + rest@.reverse();
            let sub = pending.pop().unwrap();
            rest.push(sub);
            assert(pending@ + rest@.reverse() =~= whole);
        }
        assert(pending@ + rest@.reverse() =~= rest@.reverse());
        assert(all.take(0) =~= Seq::empty());
        let ghost mut done: int = 0;
        while rest.len() > 0
            invariant
                done + rest@.len() == all.len(),
                0 <= done,
                pending_views(rest@.reverse()) =~= all.skip(done),
                res@ == attached(plan@, all.take(done)),
            decreases rest.len(),
        {
            let ghost whole = rest@;
            let sub = rest.pop().unwrap();
            proof {
                assert(whole.reverse()[0] == sub);
                assert(pending_views(whole.reverse())[0] == sub@);
                assert(all.skip(done)[0] == all[done]);
                assert(sub@ == all[done]);
                let next = all.take(done + 1);
                assert(next.drop_last() =~= all.take(done));
                assert(next.last() == sub@);
                assert(pending_views(rest@.reverse()) =~= all.skip(done + 1)) by {
                    assert forall|i: int| 0 <= i < rest@.len() implies pending_views(
                        rest@.reverse(),
                    )[i] == all.skip(done + 1)[i] by {
                        assert(rest@.reverse()[i] == whole.reverse()[i + 1]);
                        assert(pending_views(whole.reverse())[i + 1] == all.skip(done)[i + 1]);
                    }
                }
                done = done + 1;
            }
            res = attach_one(res, sub);
        }
        assert(all.take(done) =~= all);
        res
    }

    /// Adds a table of the catalog to the query.
    pub fn bind_base_table_ref(
        &mut self,
        join_type: Option<JoinType>,
        table_name: TableName,
        alias: Option<TableName>,
        arena: &mut PlanArena,
    ) -> (res: Result<LogicalPlan, DatabaseError>)
        requires
            old(self)@.known(old(arena)@),
        ensures
            ({
                let tables = old(self)@.tables.map();
                let name = match alias {
                    Some(alias) => Some(alias@),
                    None => None,
                };
                if tables.contains_key(table_name@) {
                    let (plan, columns, after) = source_view(
                        old(arena)@,
                        tables[table_name@],
                        table_name@,
                        name,
                        old(self)@.with_pk == Some(table_name@),
                    );
                    &&& res matches Ok(source) && source@ == plan && bound(plan, after)
                    &&& final(arena)@ == after
                    &&& final(self)@ == (BinderView {
                        sources: old(self)@.sources.push(
                            SourceView { table: table_name@, alias: name, join_type, columns },
                        ),
                        ..old(self)@
                    })
                } else {
                    &&& res == Err::<LogicalPlan, DatabaseError>(DatabaseError::TableNotFound)
                    &&& final(self)@ == old(self)@
                    &&& final(arena)@ == old(arena)@
                }
            }),
            final(self)@.known(final(arena)@),
            old(arena)@.extended_by(final(arena)@),
    {
        let ghost start = arena@;
        let table = match self.tables.get(&table_name) {
            Some(table) => table,
            None => {
                return Err(DatabaseError::TableNotFound);
            },
        };
        assert(table_known(*table, start));
        let with_pk = match &self.with_pk {
            Some(name) => *name == table_name,
            None => false,
        };
        let mut columns = table.columns.clone();
        assert(columns@ =~= table.columns@);
        let shown = table.columns.clone();
        assert(shown@ =~= table.columns@);
        let index_infos = bind_indexes(&columns, &table.indexes, arena);
        let ghost read = arena@;
        let ghost infos = index_infos@;
        let mut plan = LogicalPlan::new(
            Operator::TableScan(
                TableScanOperator { table_name: table_name.clone(), columns: shown,
                    limit: (None, None), index_infos, with_pk },
            ),
            Childrens::Leaf,
        );
        assert(bound(plan@, read)) by {
            assert forall|j: int| 0 <= j < plan@.operator->TableScan_0.index_infos.len() implies (
            #[trigger] plan@.operator->TableScan_0.index_infos[j]).valid(read) by {
                assert(infos[j]@.valid(read));
            }
        }
        if !with_pk {
            if let Some(name) = &alias {
                let (own, exprs) = name_columns(&columns, name, arena);
                proof {
                    lemma_plan_valid_within(plan@, read, arena@);
                    lemma_extended_trans(start, read, arena@);
                }
                columns = own;
                plan = LogicalPlan::new(
                    Operator::Project(ProjectOperator { exprs }),
                    Childrens::Only(Box::new(plan)),
                );
            }
        }
        let source = BoundSource { table_name, alias, join_type, columns };
        self.sources.push(source);
        proof {
            assert(self@.sources =~= old(self)@.sources.push(source@));
            lemma_known_extended(old(self)@, start, arena@);
            assert(arena@.has_columns(source@.columns));
        }
        Ok(plan)
    }

    /// Keeps the rows that meet the predicate.
    pub fn bind_filter(&mut self, plan: LogicalPlan, predicate: ExprRef) -> (res: LogicalPlan)
        ensures
            res@ == filter_view(predicate, false, attached(plan@, old(self)@.pending)),
            final(self)@ == (BinderView { pending: Seq::empty(), ..old(self)@ }),
    {
        let plan = self.attach_subqueries(plan);
        FilterOperator::build(predicate, plan, false)
    }

    /// Computes the expressions from each row.
    pub fn bind_project(&mut self, plan: LogicalPlan, exprs: Vec<ExprRef>) -> (res: LogicalPlan)
        ensures
            res@ == over(
                OperatorView::Project(exprs@),
                attached(plan@, old(self)@.pending),
            ),
            final(self)@ == (BinderView { pending: Seq::empty(), ..old(self)@ }),
    {
        let plan = self.attach_subqueries(plan);
        LogicalPlan::new(
            Operator::Project(ProjectOperator { exprs }),
            Childrens::Only(Box::new(plan)),
        )
    }

    /// Groups the rows.
    pub fn bind_aggregate(
        &mut self,
        plan: LogicalPlan,
        groupby_exprs: Vec<ExprRef>,
        agg_calls: Vec<ExprRef>,
        is_distinct: bool,
    ) -> (res: LogicalPlan)
        ensures
            res@ == over(
                OperatorView::Aggregate(
                    AggregateView {
                        groupby_exprs: groupby_exprs@,
                        agg_calls: agg_calls@,
                        is_distinct,
                        force_spill: old(self)@.force_spill,
                    },
                ),
                attached(plan@, old(self)@.pending),
            ),
            final(self)@ == (BinderView { pending: Seq::empty(), ..old(self)@ }),
    {
        let plan = self.attach_subqueries(plan);
        LogicalPlan::new(
            Operator::Aggregate(
                AggregateOperator {
                    groupby_exprs,
                    agg_calls,
                    is_distinct,
                    force_spill: self.force_spill,
                },
            ),
            Childrens::Only(Box::new(plan)),
        )
    }

    /// Keeps the groups that meet the predicate.
    pub fn bind_having(&mut self, plan: LogicalPlan, predicate: ExprRef) -> (res: LogicalPlan)
        ensures
            res@ == filter_view(predicate, true, attached(plan@, old(self)@.pending)),
            final(self)@ == (BinderView { pending: Seq::empty(), ..old(self)@ }),
    {
        let plan = self.attach_subqueries(plan);
        FilterOperator::build(predicate, plan, true)
    }

    /// Sorts the rows.
    pub fn bind_sort(&mut self, plan: LogicalPlan,
        sort_fields: Vec<SortField>) -> (res: LogicalPlan)
        ensures
            res@ == over(
                OperatorView::Sort(sort_fields@),
                attached(plan@, old(self)@.pending),
            ),
            final(self)@ == (BinderView { pending: Seq::empty(), ..old(self)@ }),
    {
        let plan = self.attach_subqueries(plan);
        LogicalPlan::new(
            Operator::Sort(SortOperator { sort_fields }),
            Childrens::Only(Box::new(plan)),
        )
    }

    /// Keeps a run of the rows.
    pub fn bind_limit_values(
        &self,
        plan: LogicalPlan,
        offset: Option<usize>,
        limit: Option<usize>,
    ) -> (res: LogicalPlan)
        ensures
            res@ == over(OperatorView::Limit(LimitOperator { offset, limit }), plan@),
    {
        LogicalPlan::new(
            Operator::Limit(LimitOperator { offset, limit }),
            Childrens::Only(Box::new(plan)),
        )
    }

    /// Joins two plans.
    pub fn bind_join(
        &self,
        left: LogicalPlan,
        right: LogicalPlan,
        join_type: JoinType,
        on: JoinCondition,
    ) -> (res: LogicalPlan)
        ensures
            res@ == pair(
                OperatorView::Join(
                    JoinView { on: on@, join_type, force_nested_loop: self@.force_nested_loop },
                ),
                left@,
                right@,
            ),
    {
        LogicalPlan::new(
            Operator::Join(
                JoinOperator { on, join_type, force_nested_loop: self.force_nested_loop },
            ),
            Childrens::Twins { left: Box::new(left), right: Box::new(right) },
        )
    }

    /// Writes the rows of a plan to a table.
    pub fn bind_insert_query(&self, table_name: TableName, plan: LogicalPlan,
        is_overwrite: bool) -> (res:
        LogicalPlan)
        ensures
            res@ == over(
                OperatorView::Plain(
                    Operator::Insert(
                        InsertOperator { table_name, is_overwrite, is_mapping_by_name: true },
                    ),
                ),
                plan@,
            ),
            res.operator == Operator::Insert(
                InsertOperator { table_name, is_overwrite, is_mapping_by_name: true },
            ),
    {
        LogicalPlan::new(
            Operator::Insert(InsertOperator { table_name, is_overwrite, is_mapping_by_name: true }),
            Childrens::Only(Box::new(plan)),
        )
    }

    /// Writes given rows to a table.
    pub fn bind_insert_values(
        &self,
        table_name: TableName,
        schema_ref: Vec<ColumnRef>,
        rows: Vec<Vec<DataValue>>,
        is_overwrite: bool,
        is_mapping_by_name: bool,
    ) -> (res: LogicalPlan)
        ensures
            res@ == over(
                OperatorView::Plain(
                    Operator::Insert(InsertOperator { table_name, is_overwrite,
                        is_mapping_by_name }),
                ),
                leaf(
                    OperatorView::Values(
                        ValuesView { rows: row_views(rows@), schema_ref: schema_ref@ },
                    ),
                ),
            ),
            res.operator == Operator::Insert(
                InsertOperator { table_name, is_overwrite, is_mapping_by_name },
            ),
    {
        let values = LogicalPlan::new(
            Operator::Values(ValuesOperator { rows, schema_ref }),
            Childrens::Leaf,
        );
        assert(values@ == leaf(
            OperatorView::Values(ValuesView { rows: row_views(rows@), schema_ref: schema_ref@ }),
        ));
        LogicalPlan::new(
            Operator::Insert(InsertOperator { table_name, is_overwrite, is_mapping_by_name }),
            Childrens::Only(Box::new(values)),
        )
    }

    /// Changes the rows of a plan.
    pub fn bind_update(
        &self,
        table_name: TableName,
        value_exprs: Vec<(ColumnRef, ExprRef)>,
        plan: LogicalPlan,
    ) -> (res: LogicalPlan)
        ensures
            res@ == over(
                OperatorView::Update(
                    UpdateView { table_name: table_name@, value_exprs: value_exprs@ },
                ),
                plan@,
            ),
    {
        LogicalPlan::new(
            Operator::Update(UpdateOperator { table_name, value_exprs }),
            Childrens::Only(Box::new(plan)),
        )
    }

    /// Removes the rows of a plan.
    pub fn bind_delete(
        &self,
        table_name: TableName,
        primary_keys: Vec<ColumnRef>,
        plan: LogicalPlan,
    ) -> (res: LogicalPlan)
        ensures
            res@ == over(
                OperatorView::Delete(
                    DeleteView { table_name: table_name@, primary_keys: primary_keys@ },
                ),
                plan@,
            ),
    {
        LogicalPlan::new(
            Operator::Delete(DeleteOperator { table_name, primary_keys }),
            Childrens::Only(Box::new(plan)),
        )
    }

    /// Removes all rows of a table.
    pub fn bind_truncate(&self, table_name: TableName) -> (res: LogicalPlan)
        ensures
            res@ == leaf(
                OperatorView::Plain(Operator::Truncate(TruncateOperator { table_name })),
            ),
    {
        LogicalPlan::new(
            Operator::Truncate(TruncateOperator { table_name }),
            Childrens::Leaf,
        )
    }

    /// Collects statistics of a table.
    pub fn bind_analyze(&mut self, table_name: TableName, arena: &mut PlanArena) -> (res: Result<
        LogicalPlan,
        DatabaseError,
    >)
        requires
            old(self)@.known(old(arena)@),
        ensures
            ({
                let tables = old(self)@.tables.map();
                if tables.contains_key(table_name@) {
                    let table = tables[table_name@];
                    let (scan, after) = scan_view(
                        old(arena)@,
                        table,
                        table_name@,
                        old(self)@.with_pk == Some(table_name@),
                    );
                    &&& res matches Ok(plan) && plan@ == over(
                        OperatorView::Analyze(
                            AnalyzeView {
                                table_name: table_name@,
                                index_metas: table.indexes@,
                                histogram_buckets: None,
                            },
                        ),
                        scan,
                    ) && bound(plan@, after)
                    &&& final(arena)@ == after
                    &&& final(self)@ == (BinderView {
                        sources: old(self)@.sources.push(
                            SourceView {
                                table: table_name@,
                                alias: None,
                                join_type: None,
                                columns: table.columns@,
                            },
                        ),
                        ..old(self)@
                    })
                } else {
                    &&& res == Err::<LogicalPlan, DatabaseError>(DatabaseError::TableNotFound)
                    &&& final(self)@ == old(self)@
                    &&& final(arena)@ == old(arena)@
                }
            }),
            final(self)@.known(final(arena)@),
            old(arena)@.extended_by(final(arena)@),
    {
        let index_metas: Vec<IndexMetaRef> = match self.tables.get(&table_name) {
            Some(table) => {
                assert(table_known(*table, arena@));
                let metas = table.indexes.clone();
                assert(metas@ =~= table.indexes@);
                metas
            },
            None => {
                return Err(DatabaseError::TableNotFound);
            },
        };
        let scan = match self.bind_base_table_ref(None, table_name.clone(), None, arena) {
            Ok(scan) => scan,
            Err(err) => {
                return Err(err);
            },
        };
        Ok(
            LogicalPlan::new(
                Operator::Analyze(
                    AnalyzeOperator { table_name, index_metas, histogram_buckets: None },
                ),
                Childrens::Only(Box::new(scan)),
            ),
        )
    }
}

} // verus!
