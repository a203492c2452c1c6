//! Joins and applications that search their right input by a key of each left row.

use crate::catalog::ColumnRef;
use crate::errors::DatabaseError;
use crate::expression::analysis::{bare, columns_of, lemma_bare_bounded, lemma_columns_valid};
use crate::expression::{BinaryOperator, ExprHead, ScalarExpression};
use crate::optimizer::rule::normalization::elimination::schema_contains_column;
use crate::optimizer::rule::normalization::pushdown_predicates::{input_schemas, inputs_ready};
use crate::planner::arena::{ArenaView, ExprRef, PlanArena};
use crate::planner::operator::mark_apply::{MarkApplyKind, MarkApplyQuantifier, MarkApplyView};
use crate::planner::operator::table_scan::{TableScanOperator, TableScanView};
use crate::planner::operator::{
    Operator, OperatorView, PhysicalOption, PhysicalOptionView, PlanImpl, PlanImplView,
};
use crate::planner::schema::{clone_schema, lemma_plan_valid_within};
use crate::planner::{ChildrenView, Childrens, LogicalPlan, PlanView};
use crate::text::same_text;
use crate::types::index::{IndexInfoView, IndexLookup, IndexLookupView, IndexMetaView, IndexType};
use crate::types::tuple::Schema;
use crate::types::ColumnId;
use vstd::prelude::*;

verus! {

/// A column of the right input and the expression of the left row that it has to equal, if one side
/// of an equality is such a column and the other one only needs the left row.
pub open spec fn side_probe(
    arena: ArenaView,
    right_expr: ExprRef,
    left_expr: ExprRef,
    left_schema: Seq<ColumnRef>,
    right_schema: Seq<ColumnRef>,
) -> Option<(ColumnRef, ExprRef)> {
    match arena.exprs[bare(arena.exprs, right_expr).0 as int].head {
        ExprHead::ColumnRef { column, .. } => if arena.schema_contains(right_schema, column)
            && only_left(arena, left_expr, left_schema, right_schema) {
            Some((column, left_expr))
        } else {
            None
        },
        _ => None,
    }
}

/// Whether an expression uses columns of the left input alone.
pub open spec fn only_left(
    arena: ArenaView,
    expr: ExprRef,
    left_schema: Seq<ColumnRef>,
    right_schema: Seq<ColumnRef>,
) -> bool {
    let columns = columns_of(arena.exprs, expr);
    forall|i: int|
        0 <= i < columns.len() ==> arena.schema_contains(left_schema, #[trigger] columns[i])
            && !arena.schema_contains(right_schema, columns[i])
}

/// The key by which a predicate lets the right input be searched.
pub open spec fn predicate_probe(
    arena: ArenaView,
    predicate: ExprRef,
    left_schema: Seq<ColumnRef>,
    right_schema: Seq<ColumnRef>,
) -> Option<(ColumnRef, ExprRef)> {
    let node = arena.exprs[bare(arena.exprs, predicate).0 as int];
    if (node.head matches ExprHead::Binary { op, .. } && op == BinaryOperator::Eq)
        && node.children.len() == 2 {
        match side_probe(arena, node.children[0], node.children[1], left_schema, right_schema) {
            Some(probe) => Some(probe),
            None => side_probe(
                arena,
                node.children[1],
                node.children[0],
                left_schema,
                right_schema,
            ),
        }
    } else {
        None
    }
}

/// The first key by which one of the predicates lets the right input be searched.
pub open spec fn first_probe(
    arena: ArenaView,
    predicates: Seq<ExprRef>,
    left_schema: Seq<ColumnRef>,
    right_schema: Seq<ColumnRef>,
) -> Option<(ColumnRef, ExprRef)>
    decreases predicates.len(),
{
    if predicates.len() == 0 {
        None
    } else {
        match first_probe(arena, predicates.drop_last(), left_schema, right_schema) {
            Some(probe) => Some(probe),
            None => predicate_probe(arena, predicates.last(), left_schema, right_schema),
        }
    }
}

/// The key by which an application may search its right input: any predicate of an existence test,
/// the comparison itself of a membership test, none otherwise.
pub open spec fn apply_probe(
    arena: ArenaView,
    kind: MarkApplyKind,
    predicates: Seq<ExprRef>,
    left_schema: Seq<ColumnRef>,
    right_schema: Seq<ColumnRef>,
) -> Option<(ColumnRef, ExprRef)> {
    match kind {
        MarkApplyKind::Exists => first_probe(arena, predicates, left_schema, right_schema),
        MarkApplyKind::Quantified(MarkApplyQuantifier::Any) => if predicates.len() > 0 {
            predicate_probe(arena, predicates[0], left_schema, right_schema)
        } else {
            None
        },
        _ => None,
    }
}

/// How well an index serves single searches; less is better.
pub open spec fn priority(ty: IndexType) -> usize {
    match ty {
        IndexType::PrimaryKey { .. } => 0,
        IndexType::Unique => 1,
        IndexType::Composite => 2,
        IndexType::Normal => 3,
    }
}

/// Whether an index belongs to the table and starts with the column.
pub open spec fn starts_with(index: IndexMetaView, table: Seq<char>, column_id: ColumnId) -> bool {
    &&& index.table_name == table
    &&& index.column_ids.len() > 0
    &&& index.column_ids[0] == column_id
}

/// The first of the best indexes that start with the column.
pub open spec fn best_index(
    arena: ArenaView,
    infos: Seq<IndexInfoView>,
    table: Seq<char>,
    column_id: ColumnId,
) -> Option<nat>
    decreases infos.len(),
{
    if infos.len() == 0 {
        None
    } else {
        let last = arena.indexes[infos.last().meta.0 as int];
        let here = Some((infos.len() - 1) as nat);
        match best_index(arena, infos.drop_last(), table, column_id) {
            None => if starts_with(last, table, column_id) {
                here
            } else {
                None
            },
            Some(best) => if starts_with(last, table, column_id) && priority(last.ty) < priority(
                arena.indexes[infos[best as int].meta.0 as int].ty,
            ) {
                here
            } else {
                Some(best)
            },
        }
    }
}

/// The chosen index starts with the column, no index that does so is better, and none before it is
/// as good.
pub proof fn best_index_is_first_best(
    arena: ArenaView,
    infos: Seq<IndexInfoView>,
    table: Seq<char>,
    column_id: ColumnId,
)
    ensures
        match best_index(arena, infos, table, column_id) {
            None => forall|i: int|
                0 <= i < infos.len() ==> !starts_with(
                    arena.indexes[(#[trigger] infos[i]).meta.0 as int],
                    table,
                    column_id,
                ),
            Some(best) => {
                let chosen = arena.indexes[infos[best as int].meta.0 as int];
                &&& best < infos.len()
                &&& starts_with(chosen, table, column_id)
                &&& forall|i: int|
                    0 <= i < infos.len() && starts_with(
                        arena.indexes[(#[trigger] infos[i]).meta.0 as int],
                        table,
                        column_id,
                    ) ==> {
                        let other = arena.indexes[infos[i].meta.0 as int];
                        &&& priority(chosen.ty) <= priority(other.ty)
                        &&& i < best ==> priority(chosen.ty) < priority(other.ty)
                    }
            },
        },
    decreases infos.len(),
{
    if infos.len() > 0 {
        let first = infos.drop_last();
        best_index_is_first_best(arena, first, table, column_id);
        assert forall|i: int| 0 <= i < infos.len() - 1 implies first[i] == #[trigger] infos[i] by {
        }
    }
}

/// The index of a scan by which a column can be searched.
pub open spec fn scan_probe(
    arena: ArenaView,
    scan: TableScanView,
    column: ColumnRef,
) -> Option<nat> {
    let column = arena.columns[column.0 as int];
    match (column.table, column.id) {
        (Some(table), Some(id)) => if scan.table_name == table {
            best_index(arena, scan.index_infos, table, id)
        } else {
            None
        },
        _ => None,
    }
}

/// An index that is searched by a key of the running query.
pub open spec fn probing(info: IndexInfoView) -> IndexInfoView {
    IndexInfoView { lookup: Some(IndexLookupView::Probe), ..info }
}

/// A scan that searches one of its indexes.
pub open spec fn probing_scan(plan: PlanView, scan: TableScanView, position: nat,
    info: IndexInfoView) -> PlanView {
    PlanView {
        operator: OperatorView::TableScan(
            TableScanView {
                index_infos: scan.index_infos.update(position as int, info),
                ..scan
            },
        ),
        physical: Some(
            PhysicalOptionView {
                plan: PlanImplView::IndexScan(info),
                sort_option: info.sort_option,
            },
        ),
        ..plan
    }
}

/// Whether an operator hands on rows of its only input.
pub open spec fn passes_rows(operator: OperatorView) -> bool {
    operator is Filter || operator is Project || operator is Limit || operator is Sort
        || operator is TopK
}

/// The plan with its scan searched by a column, if it has a scan below operators that hand on rows
/// and the scan has an index for the column.
pub open spec fn probed(plan: PlanView, column: ColumnRef, arena: ArenaView) -> Option<PlanView>
    decreases plan,
{
    match plan.operator {
        OperatorView::TableScan(scan) => match scan_probe(arena, scan, column) {
            Some(position) => Some(
                probing_scan(
                    plan,
                    scan,
                    position,
                    probing(scan.index_infos[position as int]),
                ),
            ),
            None => None,
        },
        operator => if passes_rows(operator) {
            match plan.children {
                ChildrenView::Only(child) => match probed(*child, column, arena) {
                    Some(child) => Some(
                        PlanView { children: ChildrenView::Only(Box::new(child)), ..plan },
                    ),
                    None => None,
                },
                _ => None,
            }
        } else {
            None
        },
    }
}

/// How well an index serves single searches; less is better.
pub fn index_priority(index_type: IndexType) -> (res: usize)
    ensures
        res == priority(index_type),
{
    match index_type {
        IndexType::PrimaryKey { .. } => 0,
        IndexType::Unique => 1,
        IndexType::Composite => 2,
        IndexType::Normal => 3,
    }
}

/// A column of the right input and the expression of the left row that it has to equal.
pub fn extract_parameterized_probe_side(
    right_expr: ExprRef,
    left_expr: ExprRef,
    left_schema: &Schema,
    right_schema: &Schema,
    arena: &PlanArena,
) -> (res: Result<Option<(ColumnRef, ExprRef)>, DatabaseError>)
    requires
        arena@.wf(),
        arena@.has_expr(right_expr),
        arena@.has_expr(left_expr),
        arena@.has_columns(left_schema@),
        arena@.has_columns(right_schema@),
    ensures
        res == Ok::<_, DatabaseError>(
            side_probe(arena@, right_expr, left_expr, left_schema@, right_schema@),
        ),
{
    let right = right_expr.unpack_alias(arena);
    let right_column = match arena.expression(right) {
        ScalarExpression::ColumnRef { column, .. } => *column,
        _ => {
            return Ok(None);
        },
    };
    assert(arena@.exprs[right.0 as int].head == ExprHead::ColumnRef {
        column: right_column,
        position: arena@.exprs[right.0 as int].head->position,
    });
    if !schema_contains_column(right_schema, &right_column, arena) {
        return Ok(None);
    }
    let columns = left_expr.referenced_columns(arena);
    proof {
        lemma_columns_valid(arena@, left_expr);
    }
    let mut i: usize = 0;
    while i < columns.len()
        invariant
            i <= columns.len(),
            columns@ == columns_of(arena@.exprs, left_expr),
            arena@.has_columns(columns@),
            arena@.has_columns(left_schema@),
            arena@.has_columns(right_schema@),
            side_probe(arena@, right_expr, left_expr, left_schema@, right_schema@) is None
                || side_probe(arena@, right_expr, left_expr, left_schema@, right_schema@) == Some(
                (right_column, left_expr),
            ),
            only_left(arena@, left_expr, left_schema@, right_schema@) <==> side_probe(
                arena@,
                right_expr,
                left_expr,
                left_schema@,
                right_schema@,
            ) is Some,
            forall|j: int|
                0 <= j < i ==> arena@.schema_contains(left_schema@, #[trigger] columns@[j])
                    && !arena@.schema_contains(right_schema@, columns@[j]),
        decreases columns.len() - i,
    {
        assert(arena@.has_column(columns@[i as int]));
        if !schema_contains_column(left_schema, &columns[i], arena) || schema_contains_column(
            right_schema,
            &columns[i],
            arena,
        ) {
            assert(!only_left(arena@, left_expr, left_schema@, right_schema@)) by {
                assert(columns_of(arena@.exprs, left_expr)[i as int] == columns@[i as int]);
            }
            return Ok(None);
        }
        i += 1;
    }
    Ok(Some((right_column, left_expr)))
}

/// The key by which a predicate lets the right input be searched.
pub fn extract_parameterized_probe(
    predicate: ExprRef,
    left_schema: &Schema,
    right_schema: &Schema,
    arena: &PlanArena,
) -> (res: Result<Option<(ColumnRef, ExprRef)>, DatabaseError>)
    requires
        arena@.wf(),
        arena@.has_expr(predicate),
        arena@.has_columns(left_schema@),
        arena@.has_columns(right_schema@),
    ensures
        res == Ok::<_, DatabaseError>(
            predicate_probe(arena@, predicate, left_schema@, right_schema@),
        ),
{
    let expr = predicate.unpack_alias(arena);
    match arena.expression(expr) {
        ScalarExpression::Binary { op: BinaryOperator::Eq, left_expr, right_expr, .. } => {
            assert(arena@.exprs[expr.0 as int].children[0] == *left_expr);
            assert(arena@.exprs[expr.0 as int].children[1] == *right_expr);
            match extract_parameterized_probe_side(
                *left_expr,
                *right_expr,
                left_schema,
                right_schema,
                arena,
            ) {
                Ok(None) => {},
                found => {
                    return found;
                },
            }
            extract_parameterized_probe_side(
                *right_expr,
                *left_expr,
                left_schema,
                right_schema,
                arena,
            )
        },
        _ => Ok(None),
    }
}

/// The first of the predicates that gives a probe decides.
proof fn lemma_first_probe(
    arena: ArenaView,
    predicates: Seq<ExprRef>,
    left_schema: Seq<ColumnRef>,
    right_schema: Seq<ColumnRef>,
    len: int,
)
    requires
        0 <= len <= predicates.len(),
        first_probe(arena, predicates.take(len), left_schema, right_schema) is Some,
    ensures
        first_probe(arena, predicates, left_schema, right_schema) == first_probe(
            arena,
            predicates.take(len),
            left_schema,
            right_schema,
        ),
    decreases predicates.len(),
{
    if len < predicates.len() {
        assert(predicates.drop_last().take(len) =~= predicates.take(len));
        lemma_first_probe(arena, predicates.drop_last(), left_schema, right_schema, len);
    } else {
        assert(predicates.take(len) =~= predicates);
    }
}

/// The key by which an application may search its right input.
pub fn find_parameterized_probe(
    kind: MarkApplyKind,
    predicates: &[ExprRef],
    left_schema: &Schema,
    right_schema: &Schema,
    arena: &PlanArena,
) -> (res: Result<Option<(ColumnRef, ExprRef)>, DatabaseError>)
    requires
        arena@.wf(),
        arena@.has_exprs(predicates@),
        arena@.has_columns(left_schema@),
        arena@.has_columns(right_schema@),
    ensures
        res == Ok::<_, DatabaseError>(
            apply_probe(arena@, kind, predicates@, left_schema@, right_schema@),
        ),
{
    match kind {
        MarkApplyKind::Exists => {
            let mut i: usize = 0;
            assert(predicates@.take(0) =~= Seq::empty());
            while i < predicates.len()
                invariant
                    i <= predicates.len(),
                    arena@.wf(),
                    arena@.has_exprs(predicates@),
                    arena@.has_columns(left_schema@),
                    arena@.has_columns(right_schema@),
                    kind == MarkApplyKind::Exists,
                    first_probe(
                        arena@,
                        predicates@.take(i as int),
                        left_schema@,
                        right_schema@,
                    ) is None,
                decreases predicates.len() - i,
            {
                proof {
                    let next = predicates@.take(i + 1);
                    assert(next.drop_last() =~= predicates@.take(i as int));
                    assert(next.last() == predicates@[i as int]);
                    assert(arena@.has_expr(predicates@[i as int]));
                }
                match extract_parameterized_probe(predicates[i], left_schema, right_schema, arena) {
                    Ok(None) => {},
                    found => {
                        proof {
                            lemma_first_probe(
                                arena@,
                                predicates@,
                                left_schema@,
                                right_schema@,
                                i + 1,
                            );
                        }
                        return found;
                    },
                }
                i += 1;
            }
            assert(predicates@.take(i as int) =~= predicates@);
            Ok(None)
        },
        MarkApplyKind::Quantified(MarkApplyQuantifier::Any) => {
            if predicates.len() > 0 {
                assert(arena@.has_expr(predicates@[0]));
                extract_parameterized_probe(predicates[0], left_schema, right_schema, arena)
            } else {
                Ok(None)
            }
        },
        _ => Ok(None),
    }
}

/// The index of a scan by which a column can be searched.
pub fn pick_parameterized_index_position(
    scan_op: &TableScanOperator,
    right_column: &ColumnRef,
    arena: &PlanArena,
) -> (res: Option<usize>)
    requires
        arena@.has_column(*right_column),
        OperatorView::TableScan(scan_op@).valid(arena@),
    ensures
        match res {
            Some(position) => scan_probe(arena@, scan_op@, *right_column) == Some(position as nat)
                && position < scan_op.index_infos@.len(),
            None => scan_probe(arena@, scan_op@, *right_column) is None,
        },
{
    let right_column = arena.column(*right_column);
    let (column_id, table_name): (ColumnId, &String) = match (
        right_column.id(),
        right_column.table_name(),
    ) {
        (Some(id), Some(name)) => (id, name),
        _ => {
            return None;
        },
    };
    if !same_text(scan_op.table_name.as_str(), table_name.as_str()) {
        return None;
    }
    let ghost infos = scan_op@.index_infos;
    let mut best: Option<usize> = None;
    let mut i: usize = 0;
    assert(infos.take(0) =~= Seq::empty());
    while i < scan_op.index_infos.len()
        invariant
            i <= scan_op.index_infos.len(),
            infos == scan_op@.index_infos,
            infos.len() == scan_op.index_infos.len(),
            OperatorView::TableScan(scan_op@).valid(arena@),
            match best {
                Some(position) => best_index(
                    arena@,
                    infos.take(i as int),
                    table_name@,
                    column_id,
                ) == Some(position as nat) && position < i,
                None => best_index(
                    arena@,
                    infos.take(i as int),
                    table_name@,
                    column_id,
                ) is None,
            },
        decreases scan_op.index_infos.len() - i,
    {
        proof {
            let next = infos.take(i + 1);
            assert(next.drop_last() =~= infos.take(i as int));
            assert(next.last() == infos[i as int]);
            assert(infos[i as int].valid(arena@));
            assert(infos[i as int] == scan_op.index_infos@[i as int]@);
        }
        let meta = arena.index(scan_op.index_infos[i].meta);
        if same_text(meta.table_name.as_str(), table_name.as_str()) && meta.column_ids.len() > 0
            && meta.column_ids[0] == column_id {
            match best {
                None => {
                    best = Some(i);
                },
                Some(position) => {
                    assert(infos[position as int].valid(arena@));
                    assert(infos[position as int] == scan_op.index_infos@[position as int]@);
                    let chosen = arena.index(scan_op.index_infos[position].meta);
                    if index_priority(meta.ty) < index_priority(chosen.ty) {
                        best = Some(i);
                    }
                },
            }
        }
        i += 1;
    }
    assert(infos.take(i as int) =~= infos);
    best
}

/// Lets a scan search one of its indexes.
pub fn probe_scan(plan: &mut LogicalPlan, position: usize, clear_residual: bool)
    requires
        old(plan)@.operator matches OperatorView::TableScan(scan) && position
            < scan.index_infos.len(),
    ensures
        ({
            let scan = old(plan)@.operator->TableScan_0;
            let info = probing(scan.index_infos[position as int]);
            final(plan)@ == probing_scan(
                old(plan)@,
                scan,
                position as nat,
                if clear_residual {
                    IndexInfoView { residual_predicate: None, ..info }
                } else {
                    info
                },
            )
        }),
{
    let ghost before = plan@.operator->TableScan_0;
    let found = match &mut plan.operator {
        Operator::TableScan(scan_op) => {
            let ghost infos = scan_op.index_infos@;
            assert(before.index_infos[position as int] == infos[position as int]@);
            scan_op.index_infos[position].lookup = Some(IndexLookup::Probe);
            if clear_residual {
                scan_op.index_infos[position].residual_predicate = None;
            }
            let info = scan_op.index_infos[position].clone();
            assert(scan_op@.index_infos =~= before.index_infos.update(position as int, info@));
            Some(info)
        },
        _ => None,
    };
    if let Some(info) = found {
        let sort_option = info.sort_option.clone();
        plan.physical_option = Some(
            PhysicalOption::new(PlanImpl::IndexScan(Box::new(info)), sort_option),
        );
    }
}

/// Lets the scan below operators that hand on rows be searched by a column, if it has an index for
/// the column.
pub fn parameterize_right_subtree(
    plan: &mut LogicalPlan,
    right_column: &ColumnRef,
    arena: &PlanArena,
) -> (found: bool)
    requires
        arena@.has_column(*right_column),
        old(plan)@.valid(arena@),
    ensures
        found == (probed(old(plan)@, *right_column, arena@) is Some),
        found ==> probed(old(plan)@, *right_column, arena@) == Some(final(plan)@),
        !found ==> final(plan)@ == old(plan)@,
        final(plan)@.valid(arena@),
    decreases *old(plan),
{
    assert(plan.childrens@ == plan@.children);
    let position: Option<usize> = match &plan.operator {
        Operator::TableScan(scan_op) => match pick_parameterized_index_position(
            scan_op,
            right_column,
            arena,
        ) {
            None => {
                return false;
            },
            position => position,
        },
        Operator::Filter(_) | Operator::Project(_) | Operator::Limit(_) | Operator::Sort(_)
        | Operator::TopK(_) => None,
        _ => {
            return false;
        },
    };
    if let Some(position) = position {
        let ghost scan = plan@.operator->TableScan_0;
        proof {
            assert(scan.index_infos[position as int].valid(arena@));
        }
        probe_scan(plan, position, false);
        assert(plan@.children.valid(arena@));
        return true;
    }
    let found = (&mut *plan.childrens).parameterize(right_column, arena);
    assert(plan.childrens@ == plan@.children);
    found
}

impl Childrens {
    /// Lets the scan below the only input be searched by a column.
    fn parameterize(&mut self, right_column: &ColumnRef, arena: &PlanArena) -> (found: bool)
        requires
            arena@.has_column(*right_column),
            old(self)@.valid(arena@),
        ensures
            ({
                let child = match old(self)@ {
                    ChildrenView::Only(child) => probed(*child, *right_column, arena@),
                    _ => None,
                };
                &&& found == (child is Some)
                &&& found ==> final(self)@ == ChildrenView::Only(Box::new(child->0))
                &&& !found ==> final(self)@ == old(self)@
            }),
            final(self)@.valid(arena@),
        decreases *old(self),
    {
        match self {
            Childrens::Only(child) => parameterize_right_subtree(&mut **child, right_column, arena),
            _ => false,
        }
    }
}

/// Lets an application search its right input by a key of each left row, where a predicate and an
/// index allow it.
pub struct ParameterizeMarkApply;

/// The application of a plan that decides something for each row.
pub open spec fn marking_apply(plan: PlanView) -> Option<MarkApplyView> {
    match (plan.operator, plan.children) {
        (OperatorView::MarkApply(op), ChildrenView::Twins { .. }) => if op.kind
            != MarkApplyKind::InnerJoin {
            Some(op)
        } else {
            None
        },
        _ => None,
    }
}

/// The right input and the key after an application was asked to search its right input.
pub open spec fn search_right(
    op: MarkApplyView,
    children: ChildrenView,
    arena: ArenaView,
) -> (PlanView, Option<ExprRef>) {
    let inputs = input_schemas(children, arena);
    let right = *inputs.children->right;
    match apply_probe(inputs.arena, op.kind, op.predicates, inputs.left, inputs.right) {
        None => (right, None),
        Some((column, expr)) => match probed(right, column, inputs.arena) {
            Some(right) => (right, Some(expr)),
            None => (right, None),
        },
    }
}

impl ParameterizeMarkApply {
    pub fn apply(&self, plan: &mut LogicalPlan, arena: &mut PlanArena) -> (res: Result<
        bool,
        DatabaseError,
    >)
        requires
            old(arena)@.wf(),
            old(plan)@.valid(old(arena)@),
            marking_apply(old(plan)@) is Some ==> inputs_ready(old(plan)@.children),
        ensures
            final(arena)@.wf(),
            old(arena)@.extended_by(final(arena)@),
            final(plan)@.valid(final(arena)@),
            match marking_apply(old(plan)@) {
                None => res == Ok::<bool, DatabaseError>(false) && final(plan)@ == old(plan)@
                    && final(arena)@ == old(arena)@,
                Some(op) => {
                    let inputs = input_schemas(old(plan)@.children, old(arena)@);
                    let (right, probe) = search_right(op, old(plan)@.children, old(arena)@);
                    &&& res == Ok::<bool, DatabaseError>(op.parameterized_probe != probe)
                    &&& final(arena)@ == inputs.arena
                    &&& final(plan)@ == (PlanView {
                        operator: OperatorView::MarkApply(
                            MarkApplyView { parameterized_probe: probe, ..op },
                        ),
                        children: ChildrenView::Twins {
                            left: inputs.children->left,
                            right: Box::new(right),
                        },
                        ..old(plan)@
                    })
                },
            },
    {
        let ghost start = plan@;
        let ghost before = arena@;
        assert(plan.childrens@ == plan@.children);
        let (kind, predicates): (MarkApplyKind, Vec<ExprRef>) = match (
            &plan.operator,
            &*plan.childrens,
        ) {
            (Operator::MarkApply(op), Childrens::Twins { .. }) => {
                if op.kind == MarkApplyKind::InnerJoin {
                    return Ok(false);
                }
                let copy = op.predicates.clone();
                assert(copy@ =~= op.predicates@);
                (op.kind, copy)
            },
            _ => {
                return Ok(false);
            },
        };
        let ghost op = marking_apply(start)->0;
        assert(start.children.valid(before));
        let probe = (&mut *plan.childrens).search_right(kind, &predicates, arena);
        proof {
            assert(plan.childrens@ == plan@.children);
            lemma_plan_valid_within(start, before, arena@);
        }
        match probe {
            Err(err) => Err(err),
            Ok(new_probe) => {
                let changed = match &mut plan.operator {
                    Operator::MarkApply(op) => {
                        let changed = op.parameterized_probe != new_probe;
                        op.set_parameterized_probe(new_probe);
                        changed
                    },
                    _ => false,
                };
                Ok(changed)
            },
        }
    }
}

impl Childrens {
    /// Asks the right input to be searched by a key of the left rows; gives the key.
    fn search_right(
        &mut self,
        kind: MarkApplyKind,
        predicates: &Vec<ExprRef>,
        arena: &mut PlanArena,
    ) -> (res: Result<Option<ExprRef>, DatabaseError>)
        requires
            old(arena)@.wf(),
            old(self)@.valid(old(arena)@),
            old(self)@ is Twins,
            inputs_ready(old(self)@),
            old(arena)@.has_exprs(predicates@),
        ensures
            ({
                let op = MarkApplyView {
                    kind,
                    predicates: predicates@,
                    output_column: None,
                    parameterized_probe: None,
                };
                let inputs = input_schemas(old(self)@, old(arena)@);
                let (right, probe) = search_right(op, old(self)@, old(arena)@);
                &&& res == Ok::<_, DatabaseError>(probe)
                &&& final(arena)@ == inputs.arena
                &&& final(self)@ == ChildrenView::Twins {
                    left: inputs.children->left,
                    right: Box::new(right),
                }
                &&& probe matches Some(expr) ==> final(arena)@.has_expr(expr)
            }),
            final(arena)@.wf(),
            old(arena)@.extended_by(final(arena)@),
            final(self)@.valid(final(arena)@),
    {
        let ghost start = self@;
        let ghost before = arena@;
        match self {
            Childrens::Twins { left, right } => {
                let left_schema = clone_schema((&mut **left).output_schema(arena));
                let ghost first = left@;
                let ghost middle = arena@;
                proof {
                    lemma_plan_valid_within(right@, before, middle);
                }
                let right_schema = clone_schema((&mut **right).output_schema(arena));
                proof {
                    lemma_plan_valid_within(first, middle, arena@);
                    assert(arena@.has_columns(left_schema@));
                    assert(arena@.has_exprs(predicates@));
                }
                let probe = find_parameterized_probe(
                    kind,
                    predicates.as_slice(),
                    &left_schema,
                    &right_schema,
                    arena,
                );
                match probe {
                    Err(err) => Err(err),
                    Ok(None) => Ok(None),
                    Ok(Some((right_column, left_expr))) => {
                        proof {
                            lemma_apply_probe(
                                arena@,
                                kind,
                                predicates@,
                                left_schema@,
                                right_schema@,
                            );
                        }
                        if parameterize_right_subtree(&mut **right, &right_column, arena) {
                            Ok(Some(left_expr))
                        } else {
                            Ok(None)
                        }
                    },
                }
            },
            _ => {
                assert(false);
                Ok(None)
            },
        }
    }
}

/// What a key consists of is in the arena.
proof fn lemma_predicate_probe(
    arena: ArenaView,
    predicate: ExprRef,
    left_schema: Seq<ColumnRef>,
    right_schema: Seq<ColumnRef>,
)
    requires
        arena.wf(),
        arena.has_expr(predicate),
    ensures
        predicate_probe(arena, predicate, left_schema, right_schema) matches Some((column, expr))
            ==> arena.has_column(column) && arena.has_expr(expr),
{
    lemma_bare_bounded(arena.exprs, predicate);
    let expr = bare(arena.exprs, predicate);
    let node = arena.exprs[expr.0 as int];
    if node.children.len() == 2 {
        assert(arena.exprs[expr.0 as int].children[0].0 < expr.0);
        assert(arena.exprs[expr.0 as int].children[1].0 < expr.0);
        lemma_bare_bounded(arena.exprs, node.children[0]);
        lemma_bare_bounded(arena.exprs, node.children[1]);
        let l = bare(arena.exprs, node.children[0]);
        let r = bare(arena.exprs, node.children[1]);
        assert(arena.exprs[l.0 as int].head matches ExprHead::ColumnRef { column, .. }
            ==> arena.has_column(column));
        assert(arena.exprs[r.0 as int].head matches ExprHead::ColumnRef { column, .. }
            ==> arena.has_column(column));
    }
}

proof fn lemma_first_probe_valid(
    arena: ArenaView,
    predicates: Seq<ExprRef>,
    left_schema: Seq<ColumnRef>,
    right_schema: Seq<ColumnRef>,
)
    requires
        arena.wf(),
        arena.has_exprs(predicates),
    ensures
        first_probe(arena, predicates, left_schema, right_schema) matches Some((column, expr))
            ==> arena.has_column(column) && arena.has_expr(expr),
    decreases predicates.len(),
{
    if predicates.len() > 0 {
        assert(arena.has_expr(predicates[predicates.len() - 1]));
        lemma_first_probe_valid(arena, predicates.drop_last(), left_schema, right_schema);
        lemma_predicate_probe(arena, predicates.last(), left_schema, right_schema);
    }
}

/// What a key consists of is in the arena.
proof fn lemma_apply_probe(
    arena: ArenaView,
    kind: MarkApplyKind,
    predicates: Seq<ExprRef>,
    left_schema: Seq<ColumnRef>,
    right_schema: Seq<ColumnRef>,
)
    requires
        arena.wf(),
        arena.has_exprs(predicates),
    ensures
        apply_probe(arena, kind, predicates, left_schema, right_schema) matches Some((column, expr))
            ==> arena.has_column(column) && arena.has_expr(expr),
{
    lemma_first_probe_valid(arena, predicates, left_schema, right_schema);
    if predicates.len() > 0 {
        assert(arena.has_expr(predicates[0]));
        lemma_predicate_probe(arena, predicates[0], left_schema, right_schema);
    }
}

} // verus!
