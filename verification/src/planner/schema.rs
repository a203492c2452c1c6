//! The columns that a plan delivers.

use crate::catalog::{ColumnCatalog, ColumnDesc, ColumnRef, ColumnView};
use crate::expression::analysis::type_of;
use crate::expression::explain::expr_text;
use crate::expression::{AliasType, ExprHead, ScalarExpression};
use crate::planner::arena::{ArenaView, ExprRef, PlanArena};
use crate::planner::operator::mark_apply::MarkApplyKind;
use crate::planner::operator::{Operator, OperatorView};
use crate::planner::{ChildrenView, Childrens, LogicalPlan, PlanView, SchemaCache};
use crate::types::tuple::Schema;
use crate::types::LogicalTypeView;
use vstd::prelude::*;

verus! {

/// Columns, together with the arena that names them.
pub struct Columns {
    pub columns: Seq<ColumnRef>,
    pub arena: ArenaView,
}

/// What asking a plan for its columns gives: the columns, and plan and arena afterwards.
pub struct Output {
    pub schema: Seq<ColumnRef>,
    pub arena: ArenaView,
    pub plan: PlanView,
}

/// What computing columns from the inputs gives: the columns, and inputs and arena afterwards.
pub struct Computed {
    pub schema: Seq<ColumnRef>,
    pub arena: ArenaView,
    pub children: ChildrenView,
}

/// A nullable column that holds computed values.
pub open spec fn computed_column(name: Seq<char>, ty: LogicalTypeView) -> ColumnView {
    ColumnView {
        name,
        nullable: true,
        ty,
        primary: None,
        unique: false,
        default: None,
        table: None,
        id: None,
        is_temp: false,
    }
}

/// The column of an expression: the column that it refers to, or a new one with its alias or text.
pub open spec fn column_for(arena: ArenaView, expr: ExprRef) -> (ColumnRef, ArenaView)
    decreases expr.0,
{
    if !arena.has_expr(expr) {
        (ColumnRef(0), arena)
    } else {
        let node = arena.exprs[expr.0 as int];
        let fresh = ColumnRef(arena.columns.len() as usize);
        match node.head {
            ExprHead::ColumnRef { column, .. } => (column, arena),
            ExprHead::AliasExpr if node.children.len() == 2 && node.children[1].0 < expr.0 => {
                column_for(arena, node.children[1])
            },
            ExprHead::AliasName(name) => (
                fresh,
                arena.push_column(computed_column(name, type_of(arena, expr))),
            ),
            _ => (
                fresh,
                arena.push_column(
                    computed_column(expr_text(arena, expr), type_of(arena, expr)),
                ),
            ),
        }
    }
}

/// The columns of the expressions in order.
pub open spec fn columns_for(arena: ArenaView, exprs: Seq<ExprRef>) -> Columns
    decreases exprs.len(),
{
    if exprs.len() == 0 {
        Columns { columns: Seq::empty(), arena }
    } else {
        let front = columns_for(arena, exprs.drop_last());
        let (column, after) = column_for(front.arena, exprs.last());
        Columns { columns: front.columns.push(column), arena: after }
    }
}

/// New columns that only have the given names.
pub open spec fn dummies(arena: ArenaView, names: Seq<Seq<char>>) -> Columns
    decreases names.len(),
{
    if names.len() == 0 {
        Columns { columns: Seq::empty(), arena }
    } else {
        let front = dummies(arena, names.drop_last());
        Columns {
            columns: front.columns.push(ColumnRef(front.arena.columns.len() as usize)),
            arena: front.arena.push_column(ColumnView::dummy(names.last())),
        }
    }
}

/// The names of the columns of a statement that reports its outcome.
pub open spec fn report_names(operator: OperatorView) -> Seq<Seq<char>> {
    match operator {
        OperatorView::Update(_) => seq!["UPDATED"@],
        OperatorView::Delete(_) => seq!["DELETED"@],
        OperatorView::Analyze(_) => seq!["STATISTICS_META_PATH"@],
        OperatorView::CreateTable(_) => seq!["CREATE TABLE SUCCESS"@],
        OperatorView::CreateIndex(_) => seq!["CREATE INDEX SUCCESS"@],
        OperatorView::Plain(operator) => match operator {
            Operator::ShowTable => seq!["TABLE"@],
            Operator::ShowView => seq!["VIEW"@],
            Operator::Explain => seq!["PLAN"@],
            Operator::Describe(_) => seq![
                "FIELD"@,
                "TYPE"@,
                "LEN"@,
                "NULL"@,
                "Key"@,
                "DEFAULT"@,
                "COLUMN_REF"@,
            ],
            Operator::Insert(_) => seq!["INSERTED"@],
            Operator::AddColumn(_) => seq!["ADD COLUMN SUCCESS"@],
            Operator::ChangeColumn(_) => seq!["CHANGE COLUMN SUCCESS"@],
            Operator::DropColumn(_) => seq!["DROP COLUMN SUCCESS"@],
            Operator::CreateView(_) => seq!["CREATE VIEW SUCCESS"@],
            Operator::DropTable(_) => seq!["DROP TABLE SUCCESS"@],
            Operator::DropView(_) => seq!["DROP VIEW SUCCESS"@],
            Operator::DropIndex(_) => seq!["DROP INDEX SUCCESS"@],
            Operator::Truncate(_) => seq!["TRUNCATE TABLE SUCCESS"@],
            Operator::CopyFromFile(_) => seq!["COPY FROM SOURCE"@],
            Operator::CopyToFile(_) => seq!["COPY TO TARGET"@],
            _ => Seq::empty(),
        },
        _ => Seq::empty(),
    }
}

/// How the columns of an operator come about.
pub enum SchemaRule {
    /// The columns of the only input, followed by the given ones.
    Extend(Seq<ColumnRef>),
    /// The columns of the left input, followed by those of the right one.
    Concat,
    /// The columns of the first input, if any, followed by the mark.
    Mark(ColumnRef),
    /// One column for each expression.
    Exprs(Seq<ExprRef>),
    /// The given columns.
    Given(Seq<ColumnRef>),
    /// New columns with the given names.
    Report(Seq<Seq<char>>),
}

/// How the columns of an operator come about.
pub open spec fn schema_rule(operator: OperatorView) -> SchemaRule {
    match operator {
        OperatorView::Filter(_) | OperatorView::Sort(_) | OperatorView::Limit(_)
        | OperatorView::TopK(_) => SchemaRule::Extend(Seq::empty()),
        OperatorView::Plain(Operator::ScalarSubquery(_)) => SchemaRule::Extend(Seq::empty()),
        OperatorView::Window(op) => SchemaRule::Extend(op.output_columns),
        OperatorView::Join(_) => SchemaRule::Concat,
        OperatorView::Plain(Operator::ScalarApply(_)) => SchemaRule::Concat,
        OperatorView::MarkApply(op) => if op.kind == MarkApplyKind::InnerJoin {
            SchemaRule::Concat
        } else {
            SchemaRule::Mark(op.output_column->0)
        },
        OperatorView::Aggregate(op) => SchemaRule::Exprs(op.agg_calls + op.groupby_exprs),
        OperatorView::Project(exprs) => SchemaRule::Exprs(exprs),
        OperatorView::TableScan(op) => SchemaRule::Given(op.columns),
        OperatorView::FunctionScan(op) => SchemaRule::Given(op.schema),
        OperatorView::Values(op) => SchemaRule::Given(op.schema_ref),
        OperatorView::Union(left, _) => SchemaRule::Given(left),
        OperatorView::SetMembership(_, left, _) => SchemaRule::Given(left),
        OperatorView::RecursiveCte(schema) => SchemaRule::Given(schema),
        OperatorView::RecursiveScan(schema) => SchemaRule::Given(schema),
        OperatorView::Plain(Operator::Dummy) => SchemaRule::Given(Seq::empty()),
        _ => SchemaRule::Report(report_names(operator)),
    }
}

/// The columns of a plan: those computed before, or else those that follow from its operator.
pub open spec fn output(plan: PlanView, arena: ArenaView) -> Output
    decreases plan,
{
    match plan.schema {
        Some(schema) => Output { schema, arena, plan },
        None => {
            let computed = compute(plan.operator, plan.children, arena);
            Output {
                schema: computed.schema,
                arena: computed.arena,
                plan: PlanView {
                    children: computed.children,
                    schema: Some(computed.schema),
                    ..plan
                },
            }
        },
    }
}

/// The columns of a plan are computed once: asking again gives the same columns and changes
/// neither the plan nor the arena.
pub proof fn columns_are_computed_once(plan: PlanView, arena: ArenaView)
    ensures
        ({
            let first = output(plan, arena);
            output(first.plan, first.arena) == first
        }),
{
}

/// The columns that follow from an operator and its inputs.
pub open spec fn compute(
    operator: OperatorView,
    children: ChildrenView,
    arena: ArenaView,
) -> Computed
    decreases children,
{
    match schema_rule(operator) {
        SchemaRule::Extend(more) => match children {
            ChildrenView::Only(child) => {
                let input = output(*child, arena);
                Computed {
                    schema: input.schema + more,
                    arena: input.arena,
                    children: ChildrenView::Only(Box::new(input.plan)),
                }
            },
            _ => Computed { schema: Seq::empty(), arena, children },
        },
        SchemaRule::Concat => match children {
            ChildrenView::Twins { left, right } => {
                let first = output(*left, arena);
                let second = output(*right, first.arena);
                Computed {
                    schema: first.schema + second.schema,
                    arena: second.arena,
                    children: ChildrenView::Twins {
                        left: Box::new(first.plan),
                        right: Box::new(second.plan),
                    },
                }
            },
            _ => Computed { schema: Seq::empty(), arena, children },
        },
        SchemaRule::Mark(column) => match children {
            ChildrenView::Leaf => Computed { schema: seq![column], arena, children },
            ChildrenView::Only(left) => {
                let input = output(*left, arena);
                Computed {
                    schema: input.schema.push(column),
                    arena: input.arena,
                    children: ChildrenView::Only(Box::new(input.plan)),
                }
            },
            ChildrenView::Twins { left, right } => {
                let input = output(*left, arena);
                Computed {
                    schema: input.schema.push(column),
                    arena: input.arena,
                    children: ChildrenView::Twins { left: Box::new(input.plan), right },
                }
            },
        },
        SchemaRule::Exprs(exprs) => {
            let made = columns_for(arena, exprs);
            Computed { schema: made.columns, arena: made.arena, children }
        },
        SchemaRule::Given(schema) => Computed { schema, arena, children },
        SchemaRule::Report(names) => {
            let made = dummies(arena, names);
            Computed { schema: made.columns, arena: made.arena, children }
        },
    }
}

impl PlanView {
    /// Whether everything that the plan refers to is in the arena.
    pub open spec fn valid(self, arena: ArenaView) -> bool
        decreases self,
    {
        &&& self.operator.valid(arena)
        &&& self.children.valid(arena)
        &&& self.physical matches Some(option) ==> option.valid(arena)
        &&& self.schema matches Some(schema) ==> arena.has_columns(schema)
    }

    /// Whether the columns of the plan are known or can be computed: every operator on the way
    /// has the inputs that it takes its columns from.
    pub open spec fn ready(self) -> bool
        decreases self,
    {
        self.schema is Some || (match schema_rule(self.operator) {
            SchemaRule::Extend(_) => self.children matches ChildrenView::Only(child)
                && child.ready(),
            SchemaRule::Concat => self.children matches ChildrenView::Twins { left, right }
                && left.ready() && right.ready(),
            SchemaRule::Mark(_) => {
                &&& self.operator->MarkApply_0.output_column is Some
                &&& match self.children {
                    ChildrenView::Leaf => true,
                    ChildrenView::Only(left) => left.ready(),
                    ChildrenView::Twins { left, .. } => left.ready(),
                }
            },
            _ => true,
        })
    }
}

impl ChildrenView {
    /// Whether everything that the inputs refer to is in the arena.
    pub open spec fn valid(self, arena: ArenaView) -> bool
        decreases self,
    {
        match self {
            ChildrenView::Leaf => true,
            ChildrenView::Only(plan) => plan.valid(arena),
            ChildrenView::Twins { left, right } => left.valid(arena) && right.valid(arena),
        }
    }
}

/// What is valid in an arena is valid in a larger one.
pub proof fn lemma_plan_valid_within(plan: PlanView, small: ArenaView, large: ArenaView)
    requires
        plan.valid(small),
        small.within(large),
    ensures
        plan.valid(large),
    decreases plan,
{
    lemma_children_valid_within(plan.children, small, large);
}

/// What is valid in an arena is valid in a larger one.
pub proof fn lemma_children_valid_within(
    children: ChildrenView,
    small: ArenaView,
    large: ArenaView,
)
    requires
        children.valid(small),
        small.within(large),
    ensures
        children.valid(large),
    decreases children,
{
    match children {
        ChildrenView::Leaf => {},
        ChildrenView::Only(plan) => {
            lemma_plan_valid_within(*plan, small, large);
        },
        ChildrenView::Twins { left, right } => {
            lemma_plan_valid_within(*left, small, large);
            lemma_plan_valid_within(*right, small, large);
        },
    }
}

/// The texts of the names.
pub open spec fn str_views(names: Seq<&str>) -> Seq<Seq<char>> {
    names.map_values(|name: &str| name@)
}

impl ExprRef {
    /// The column of the expression.
    pub fn output_column_ref(self, arena: &mut PlanArena) -> (res: ColumnRef)
        requires
            old(arena)@.wf(),
            old(arena)@.has_expr(self),
        ensures
            (res, final(arena)@) == column_for(old(arena)@, self),
            final(arena)@.wf(),
            final(arena)@.has_column(res),
            old(arena)@.extended_by(final(arena)@),
        decreases self.0,
    {
        assert(arena@.exprs[self.0 as int].head matches ExprHead::ColumnRef { column, .. }
            ==> arena@.has_column(column));
        let (name, follow): (String, Option<ExprRef>) = match arena.expression(self) {
            ScalarExpression::ColumnRef { column, .. } => {
                return *column;
            },
            ScalarExpression::Alias { alias, .. } => match alias {
                AliasType::Name(name) => (name.clone(), None),
                AliasType::Expr(other) => {
                    assert(arena@.exprs[self.0 as int].children[1] == *other);
                    (String::new(), Some(*other))
                },
            },
            _ => (self.explain(arena), None),
        };
        if let Some(other) = follow {
            return other.output_column_ref(arena);
        }
        let ty = self.return_type(arena);
        let column = ColumnCatalog {
            name,
            nullable: true,
            desc: ColumnDesc { column_datatype: ty, primary: None, unique: false, default: None },
            relation: None,
        };
        assert(column@ == computed_column(name@, type_of(arena@, self)));
        arena.alloc_column(column)
    }
}

fn columns_of_exprs(exprs: &Vec<ExprRef>, arena: &mut PlanArena) -> (res: Schema)
    requires
        old(arena)@.wf(),
        old(arena)@.has_exprs(exprs@),
    ensures
        (Columns { columns: res@, arena: final(arena)@ }) == columns_for(old(arena)@, exprs@),
        final(arena)@.wf(),
        final(arena)@.has_columns(res@),
        old(arena)@.extended_by(final(arena)@),
{
    let mut res: Schema = Vec::new();
    let mut i: usize = 0;
    assert(exprs@.take(0) =~= Seq::empty());
    while i < exprs.len()
        invariant
            i <= exprs.len(),
            arena@.wf(),
            old(arena)@.extended_by(arena@),
            old(arena)@.has_exprs(exprs@),
            arena@.has_columns(res@),
            (Columns { columns: res@, arena: arena@ }) == columns_for(
                old(arena)@,
                exprs@.take(i as int),
            ),
        decreases exprs.len() - i,
    {
        let ghost before = arena@;
        let ghost columns = res@;
        assert(old(arena)@.has_expr(exprs@[i as int]));
        let column = exprs[i].output_column_ref(arena);
        res.push(column);
        proof {
            let next = exprs@.take(i + 1);
            assert(next.drop_last() =~= exprs@.take(i as int));
            assert(next.last() == exprs@[i as int]);
            assert forall|k: int| 0 <= k < res@.len() implies arena@.has_column(
                #[trigger] res@[k],
            ) by {
                if k < res@.len() - 1 {
                    assert(before.has_column(columns[k]));
                }
            }
        }
        i += 1;
    }
    assert(exprs@.take(i as int) =~= exprs@);
    res
}

fn dummy_schema<const N: usize>(arena: &mut PlanArena, names: [&str; N]) -> (res: Schema)
    requires
        old(arena)@.wf(),
    ensures
        (Columns { columns: res@, arena: final(arena)@ }) == dummies(
            old(arena)@,
            str_views(names@),
        ),
        final(arena)@.wf(),
        final(arena)@.has_columns(res@),
        old(arena)@.extended_by(final(arena)@),
{
    let mut res: Schema = Vec::new();
    let mut i: usize = 0;
    let ghost texts = str_views(names@);
    assert(texts.take(0) =~= Seq::empty());
    while i < N
        invariant
            i <= N,
            texts == str_views(names@),
            arena@.wf(),
            old(arena)@.extended_by(arena@),
            arena@.has_columns(res@),
            (Columns { columns: res@, arena: arena@ }) == dummies(
                old(arena)@,
                texts.take(i as int),
            ),
        decreases N - i,
    {
        let ghost before = arena@;
        let ghost columns = res@;
        let column = arena.alloc_dummy(names[i]);
        res.push(column);
        proof {
            let next = texts.take(i + 1);
            assert(next.drop_last() =~= texts.take(i as int));
            assert(next.last() == names@[i as int]@);
            assert forall|k: int| 0 <= k < res@.len() implies arena@.has_column(
                #[trigger] res@[k],
            ) by {
                if k < res@.len() - 1 {
                    assert(before.has_column(columns[k]));
                }
            }
        }
        i += 1;
    }
    assert(texts.take(i as int) =~= texts);
    res
}

/// Copies a schema.
pub fn clone_schema(schema: &Schema) -> (res: Schema)
    ensures
        res@ == schema@,
{
    let res = schema.clone();
    assert(res@ =~= schema@);
    res
}

/// Appends the columns of one schema to another.
pub fn extend_schema(schema: &mut Schema, more: &Schema)
    ensures
        final(schema)@ == old(schema)@ + more@,
{
    let mut i: usize = 0;
    while i < more.len()
        invariant
            i <= more.len(),
            schema@ == old(schema)@ + more@.take(i as int),
        decreases more.len() - i,
    {
        schema.push(more[i]);
        i += 1;
        assert(schema@ =~= old(schema)@ + more@.take(i as int));
    }
    assert(more@.take(i as int) =~= more@);
}

/// The columns of both lists exist once the arena has grown.
proof fn lemma_has_columns_concat(
    left: Seq<ColumnRef>,
    right: Seq<ColumnRef>,
    small: ArenaView,
    large: ArenaView,
)
    requires
        small.has_columns(left),
        large.has_columns(right),
        small.within(large),
    ensures
        large.has_columns(left + right),
        large.has_columns(left),
{
    assert forall|i: int| 0 <= i < (left + right).len() implies large.has_column(
        #[trigger] (left + right)[i],
    ) by {
        if i < left.len() {
            assert(small.has_column(left[i]));
        } else {
            assert(large.has_column(right[i - left.len()]));
        }
    }
    assert forall|i: int| 0 <= i < left.len() implies large.has_column(#[trigger] left[i]) by {
        assert(small.has_column(left[i]));
    }
}

impl Childrens {
    /// The columns of the only input.
    fn only_schema(&mut self, arena: &mut PlanArena) -> (res: Schema)
        requires
            old(arena)@.wf(),
            old(self)@.valid(old(arena)@),
            old(self)@ matches ChildrenView::Only(child) && child.ready(),
        ensures
            ({
                let child = *(old(self)@->Only_0);
                let input = output(child, old(arena)@);
                &&& res@ == input.schema
                &&& final(arena)@ == input.arena
                &&& final(self)@ == ChildrenView::Only(Box::new(input.plan))
            }),
            final(arena)@.wf(),
            old(arena)@.extended_by(final(arena)@),
            final(self)@.valid(final(arena)@),
            final(arena)@.has_columns(res@),
        decreases *old(self), 0nat,
    {
        match self {
            Childrens::Only(child) => {
                let schema = (&mut **child).output_schema(arena);
                clone_schema(schema)
            },
            _ => {
                assert(false);
                Vec::new()
            },
        }
    }

    /// The columns of the left input.
    fn left_schema(&mut self, arena: &mut PlanArena) -> (res: Schema)
        requires
            old(arena)@.wf(),
            old(self)@.valid(old(arena)@),
            old(self)@ matches ChildrenView::Twins { left, .. } && left.ready(),
        ensures
            ({
                let left = *(old(self)@->left);
                let right = old(self)@->right;
                let input = output(left, old(arena)@);
                &&& res@ == input.schema
                &&& final(arena)@ == input.arena
                &&& final(self)@ == (ChildrenView::Twins { left: Box::new(input.plan), right })
            }),
            final(arena)@.wf(),
            old(arena)@.extended_by(final(arena)@),
            final(self)@.valid(final(arena)@),
            final(arena)@.has_columns(res@),
        decreases *old(self), 0nat,
    {
        match self {
            Childrens::Twins { left, right } => {
                let ghost before = arena@;
                let schema = (&mut **left).output_schema(arena);
                let res = clone_schema(schema);
                proof {
                    lemma_plan_valid_within(right@, before, arena@);
                }
                res
            },
            _ => {
                assert(false);
                Vec::new()
            },
        }
    }
}

impl LogicalPlan {
    /// The columns that the plan delivers. They are computed once and then remembered.
    pub fn output_schema(&mut self, arena: &mut PlanArena) -> (res: &Schema)
        requires
            old(arena)@.wf(),
            old(self)@.valid(old(arena)@),
            old(self)@.ready(),
        ensures
            ({
                let out = output(old(self)@, old(arena)@);
                &&& res@ == out.schema
                &&& final(self)@ == out.plan
                &&& final(arena)@ == out.arena
            }),
            final(self).operator == old(self).operator,
            final(self).physical_option == old(self).physical_option,
            final(arena)@.wf(),
            old(arena)@.extended_by(final(arena)@),
            final(self)@.valid(final(arena)@),
            final(arena)@.has_columns(res@),
        decreases *old(self), 1nat,
    {
        let ghost before = arena@;
        if self.output_schema.columns.is_none() {
            let schema = LogicalPlan::compute_output_schema(
                &self.operator,
                &mut *self.childrens,
                arena,
            );
            self.output_schema = SchemaCache { columns: Some(schema) };
        }
        self.output_schema.columns.as_ref().unwrap()
    }

    /// The columns that the plan delivers, which the plan then no longer remembers.
    pub fn take_schema(&mut self, arena: &mut PlanArena) -> (res: Schema)
        requires
            old(arena)@.wf(),
            old(self)@.valid(old(arena)@),
            old(self)@.ready(),
        ensures
            ({
                let out = output(old(self)@, old(arena)@);
                &&& res@ == out.schema
                &&& final(self)@ == (PlanView { schema: None, ..out.plan })
                &&& final(arena)@ == out.arena
            }),
            final(arena)@.wf(),
            old(arena)@.extended_by(final(arena)@),
            final(self)@.valid(final(arena)@),
            final(arena)@.has_columns(res@),
    {
        let mut cache = SchemaCache { columns: None };
        std::mem::swap(&mut self.output_schema, &mut cache);
        match cache.columns {
            Some(schema) => schema,
            None => LogicalPlan::compute_output_schema(&self.operator, &mut *self.childrens, arena),
        }
    }

    #[verifier::rlimit(50)]
    fn compute_output_schema(
        operator: &Operator,
        childrens: &mut Childrens,
        arena: &mut PlanArena,
    ) -> (res: Schema)
        requires
            old(arena)@.wf(),
            operator@.valid(old(arena)@),
            old(childrens)@.valid(old(arena)@),
            (PlanView {
                operator: operator@,
                children: old(childrens)@,
                physical: None,
                schema: None,
            }).ready(),
        ensures
            ({
                let out = compute(operator@, old(childrens)@, old(arena)@);
                &&& res@ == out.schema
                &&& final(childrens)@ == out.children
                &&& final(arena)@ == out.arena
            }),
            final(arena)@.wf(),
            old(arena)@.extended_by(final(arena)@),
            final(childrens)@.valid(final(arena)@),
            final(arena)@.has_columns(res@),
        decreases *old(childrens), 1nat,
    {
        let ghost before = arena@;
        match operator {
            Operator::Filter(_) | Operator::Sort(_) | Operator::Limit(_) | Operator::TopK(_)
            | Operator::ScalarSubquery(_) => {
                let schema = childrens.only_schema(arena);
                assert(schema@ + Seq::empty() =~= schema@);
                schema
            },
            Operator::Window(op) => {
                let mut schema = childrens.only_schema(arena);
                extend_schema(&mut schema, &op.output_columns);
                proof {
                    lemma_has_columns_concat(op.output_columns@, Seq::empty(), before, arena@);
                    lemma_has_columns_concat(
                        compute(operator@, old(childrens)@, old(arena)@).schema.take(
                            schema@.len() - op.output_columns@.len(),
                        ),
                        op.output_columns@,
                        arena@,
                        arena@,
                    );
                }
                schema
            },
            Operator::ScalarApply(_) | Operator::Join(_) => LogicalPlan::concat_schema(
                childrens,
                arena,
            ),
            Operator::MarkApply(op) => {
                if op.kind == MarkApplyKind::InnerJoin {
                    return LogicalPlan::concat_schema(childrens, arena);
                }
                let mut schema = match childrens {
                    Childrens::Leaf => Vec::new(),
                    Childrens::Only(_) => childrens.only_schema(arena),
                    Childrens::Twins { .. } => childrens.left_schema(arena),
                };
                let ghost front = schema@;
                schema.push(*op.output_column());
                proof {
                    lemma_has_columns_concat(
                        front,
                        seq![op@.output_column->0],
                        arena@,
                        arena@,
                    );
                    assert(front + seq![op@.output_column->0] =~= schema@);
                    if old(childrens)@ is Leaf {
                        assert(schema@ =~= seq![op@.output_column->0]);
                    }
                }
                schema
            },
            Operator::Aggregate(op) => {
                let mut exprs = op.agg_calls.clone();
                assert(exprs@ =~= op.agg_calls@);
                let mut i: usize = 0;
                while i < op.groupby_exprs.len()
                    invariant
                        i <= op.groupby_exprs.len(),
                        exprs@ == op.agg_calls@ + op.groupby_exprs@.take(i as int),
                    decreases op.groupby_exprs.len() - i,
                {
                    exprs.push(op.groupby_exprs[i]);
                    i += 1;
                    assert(exprs@ =~= op.agg_calls@ + op.groupby_exprs@.take(i as int));
                }
                assert(op.groupby_exprs@.take(i as int) =~= op.groupby_exprs@);
                assert forall|k: int| 0 <= k < exprs@.len() implies arena@.has_expr(
                    #[trigger] exprs@[k],
                ) by {
                    if k < op.agg_calls@.len() {
                        assert(arena@.has_expr(op.agg_calls@[k]));
                    } else {
                        assert(arena@.has_expr(op.groupby_exprs@[k - op.agg_calls@.len()]));
                    }
                }
                let schema = columns_of_exprs(&exprs, arena);
                proof {
                    lemma_children_valid_within(childrens@, before, arena@);
                }
                schema
            },
            Operator::Project(op) => {
                let schema = columns_of_exprs(&op.exprs, arena);
                proof {
                    lemma_children_valid_within(childrens@, before, arena@);
                }
                schema
            },
            Operator::TableScan(op) => clone_schema(&op.columns),
            Operator::FunctionScan(op) => clone_schema(&op.schema),
            Operator::Values(op) => clone_schema(&op.schema_ref),
            Operator::Union(op) => clone_schema(&op.left_schema_ref),
            Operator::SetMembership(op) => clone_schema(&op.left_schema_ref),
            Operator::RecursiveCte(op) => clone_schema(&op.schema_ref),
            Operator::RecursiveScan(op) => clone_schema(&op.schema_ref),
            Operator::Dummy => Vec::new(),
            _ => {
                let schema = LogicalPlan::report_schema(operator, arena);
                proof {
                    lemma_children_valid_within(childrens@, before, arena@);
                }
                schema
            },
        }
    }

    /// The columns of the left input, followed by those of the right one.
    fn concat_schema(childrens: &mut Childrens, arena: &mut PlanArena) -> (res: Schema)
        requires
            old(arena)@.wf(),
            old(childrens)@.valid(old(arena)@),
            old(childrens)@ matches ChildrenView::Twins { left, right } && left.ready()
                && right.ready(),
        ensures
            ({
                let first = output(*(old(childrens)@->left), old(arena)@);
                let second = output(*(old(childrens)@->right), first.arena);
                &&& res@ == first.schema + second.schema
                &&& final(arena)@ == second.arena
                &&& final(childrens)@ == (ChildrenView::Twins {
                    left: Box::new(first.plan),
                    right: Box::new(second.plan),
                })
            }),
            final(arena)@.wf(),
            old(arena)@.extended_by(final(arena)@),
            final(childrens)@.valid(final(arena)@),
            final(arena)@.has_columns(res@),
        decreases *old(childrens), 0nat,
    {
        let ghost before = arena@;
        match childrens {
            Childrens::Twins { left, right } => {
                let mut schema = clone_schema((&mut **left).output_schema(arena));
                let ghost middle = arena@;
                let ghost front = schema@;
                proof {
                    lemma_plan_valid_within(right@, before, middle);
                }
                let more = (&mut **right).output_schema(arena);
                extend_schema(&mut schema, more);
                proof {
                    lemma_plan_valid_within(left@, middle, arena@);
                    lemma_has_columns_concat(front, more@, middle, arena@);
                }
                schema
            },
            _ => {
                assert(false);
                Vec::new()
            },
        }
    }

    /// New columns with the names of a statement that reports its outcome.
    fn report_schema(operator: &Operator, arena: &mut PlanArena) -> (res: Schema)
        requires
            old(arena)@.wf(),
        ensures
            (Columns { columns: res@, arena: final(arena)@ }) == dummies(
                old(arena)@,
                report_names(operator@),
            ),
            final(arena)@.wf(),
            final(arena)@.has_columns(res@),
            old(arena)@.extended_by(final(arena)@),
    {
        let name = match operator {
            Operator::Describe(_) => {
                let names = [
                    "FIELD",
                    "TYPE",
                    "LEN",
                    "NULL",
                    "Key",
                    "DEFAULT",
                    "COLUMN_REF",
                ];
                assert(str_views(names@) =~= report_names(operator@));
                return dummy_schema(arena, names);
            },
            Operator::ShowTable => "TABLE",
            Operator::ShowView => "VIEW",
            Operator::Explain => "PLAN",
            Operator::Insert(_) => "INSERTED",
            Operator::Update(_) => "UPDATED",
            Operator::Delete(_) => "DELETED",
            Operator::Analyze(_) => "STATISTICS_META_PATH",
            Operator::AddColumn(_) => "ADD COLUMN SUCCESS",
            Operator::ChangeColumn(_) => "CHANGE COLUMN SUCCESS",
            Operator::DropColumn(_) => "DROP COLUMN SUCCESS",
            Operator::CreateTable(_) => "CREATE TABLE SUCCESS",
            Operator::CreateIndex(_) => "CREATE INDEX SUCCESS",
            Operator::CreateView(_) => "CREATE VIEW SUCCESS",
            Operator::DropTable(_) => "DROP TABLE SUCCESS",
            Operator::DropView(_) => "DROP VIEW SUCCESS",
            Operator::DropIndex(_) => "DROP INDEX SUCCESS",
            Operator::Truncate(_) => "TRUNCATE TABLE SUCCESS",
            Operator::CopyFromFile(_) => "COPY FROM SOURCE",
            Operator::CopyToFile(_) => "COPY TO TARGET",
            _ => {
                return Vec::new();
            },
        };
        let names = [name];
        assert(str_views(names@) =~= report_names(operator@));
        dummy_schema(arena, names)
    }
}

} // verus!
