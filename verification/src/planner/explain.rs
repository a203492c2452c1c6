//! How plans are shown.

use crate::catalog::ColumnRef;
use crate::expression::explain::expr_text;
use crate::expression::range_detacher::{Bound, BoundView, Range, RangeView};
use crate::planner::arena::{ArenaView, ExprRef, PlanArena};
use crate::planner::operator::join::{JoinCondition, JoinConditionView, JoinType};
use crate::planner::operator::mark_apply::MarkApplyOperator;
use crate::planner::operator::set_operation::SetMembershipKind;
use crate::planner::operator::sort::SortField;
use crate::planner::operator::{
    valid_pairs, Operator, OperatorView, PhysicalOption, PhysicalOptionView, PlanImpl, PlanImplView,
    SortOption, SortOptionView,
};
use crate::planner::{Childrens, ChildrenView, LogicalPlan, PlanView};
use crate::text::{blank_text, blanks, decimal_text, joined, unsigned_text};
use crate::types::index::{IndexLookup, IndexLookupView};
use crate::types::value::DataValue;
use vstd::prelude::*;

verus! {

/// What can be shown with the help of an arena.
pub trait Explain: Sized {
    /// The text.
    spec fn text(self, arena: ArenaView) -> Seq<char>;

    /// Whether everything that is to be shown is in the arena.
    spec fn known(self, arena: ArenaView) -> bool;

    /// Renders the text.
    fn shown(&self, arena: &PlanArena) -> (text: String)
        requires
            arena@.wf(),
            self.known(arena@),
        ensures
            text@ == self.text(arena@),
    ;
}

impl Explain for ExprRef {
    open spec fn text(self, arena: ArenaView) -> Seq<char> {
        expr_text(arena, self)
    }

    open spec fn known(self, arena: ArenaView) -> bool {
        arena.has_expr(self)
    }

    fn shown(&self, arena: &PlanArena) -> (text: String) {
        self.explain(arena)
    }
}

impl Explain for ColumnRef {
    open spec fn text(self, arena: ArenaView) -> Seq<char> {
        arena.columns[self.0 as int].full_name()
    }

    open spec fn known(self, arena: ArenaView) -> bool {
        arena.has_column(self)
    }

    fn shown(&self, arena: &PlanArena) -> (text: String) {
        arena.column(*self).full_name()
    }
}

impl Explain for SortField {
    open spec fn text(self, arena: ArenaView) -> Seq<char> {
        expr_text(arena, self.expr) + (if self.asc {
            " Asc"@
        } else {
            " Desc"@
        }) + (if self.nulls_first {
            " Nulls First"@
        } else {
            " Nulls Last"@
        })
    }

    open spec fn known(self, arena: ArenaView) -> bool {
        arena.has_expr(self.expr)
    }

    fn shown(&self, arena: &PlanArena) -> (text: String) {
        let mut text = self.expr.explain(arena);
        text.append(if self.asc { " Asc" } else { " Desc" });
        text.append(if self.nulls_first { " Nulls First" } else { " Nulls Last" });
        text
    }
}

impl Explain for (ExprRef, ExprRef) {
    open spec fn text(self, arena: ArenaView) -> Seq<char> {
        expr_text(arena, self.0) + " = "@ + expr_text(arena, self.1)
    }

    open spec fn known(self, arena: ArenaView) -> bool {
        arena.has_expr(self.0) && arena.has_expr(self.1)
    }

    fn shown(&self, arena: &PlanArena) -> (text: String) {
        let mut text = self.0.explain(arena);
        text.append(" = ");
        text.append(self.1.explain(arena).as_str());
        text
    }
}

impl Explain for (ColumnRef, ExprRef) {
    open spec fn text(self, arena: ArenaView) -> Seq<char> {
        arena.columns[(self.0).0 as int].full_name() + " = "@ + expr_text(arena, self.1)
    }

    open spec fn known(self, arena: ArenaView) -> bool {
        arena.has_column(self.0) && arena.has_expr(self.1)
    }

    fn shown(&self, arena: &PlanArena) -> (text: String) {
        let mut text = arena.column(self.0).full_name();
        text.append(" = ");
        text.append(self.1.explain(arena).as_str());
        text
    }
}

/// The texts of the items, with the separator between neighbours.
pub open spec fn explain_list<T: Explain>(
    arena: ArenaView,
    items: Seq<T>,
    separator: Seq<char>,
) -> Seq<char> {
    joined(items.map_values(|item: T| item.text(arena)), separator)
}

/// Renders the items, with the separator between neighbours.
pub fn fmt_explain_list<T: Explain>(values: &Vec<T>, separator: &str, arena: &PlanArena) -> (text:
    String)
    requires
        arena@.wf(),
        forall|i: int| 0 <= i < values@.len() ==> (#[trigger] values@[i]).known(arena@),
    ensures
        text@ == explain_list(arena@, values@, separator@),
{
    let mut text = String::new();
    let mut i: usize = 0;
    let ghost texts = values@.map_values(|item: T| item.text(arena@));
    assert(texts.take(0) =~= Seq::empty());
    while i < values.len()
        invariant
            i <= values.len(),
            arena@.wf(),
            forall|j: int| 0 <= j < values@.len() ==> (#[trigger] values@[j]).known(arena@),
            texts == values@.map_values(|item: T| item.text(arena@)),
            text@ == joined(texts.take(i as int), separator@),
        decreases values.len() - i,
    {
        if i > 0 {
            text.append(separator);
        }
        text.append(values[i].shown(arena).as_str());
        proof {
            let next = texts.take(i + 1);
            assert(next.drop_last() =~= texts.take(i as int));
            assert(next.last() == texts[i as int]);
            if i == 0 {
                assert(text@ =~= texts[0]);
            }
        }
        i += 1;
    }
    assert(texts.take(i as int) =~= texts);
    text
}

/// The end of a range, without its bracket.
pub open spec fn bound_text(bound: BoundView, open: Seq<char>) -> Seq<char> {
    match bound {
        BoundView::Included(value) => DataValue::text(value),
        BoundView::Excluded(value) => DataValue::text(value),
        BoundView::Unbounded => open,
    }
}

/// A range: the brackets tell whether the ends belong to it.
pub open spec fn range_text(range: RangeView) -> Seq<char>
    decreases range,
{
    match range {
        RangeView::Scope { min, max } => (if min is Included {
            "["@
        } else {
            "("@
        }) + bound_text(min, "-inf"@) + ", "@ + bound_text(max, "+inf"@) + (if max is Included {
            "]"@
        } else {
            ")"@
        }),
        RangeView::Eq(value) => DataValue::text(value),
        RangeView::Dummy => "Dummy"@,
        RangeView::SortedRanges(ranges) => range_texts(ranges),
    }
}

/// Ranges, separated by commas.
pub open spec fn range_texts(ranges: Seq<RangeView>) -> Seq<char>
    decreases ranges,
{
    if ranges.len() == 0 {
        Seq::empty()
    } else if ranges.len() == 1 {
        range_text(ranges[0])
    } else {
        range_texts(ranges.drop_last()) + ", "@ + range_text(ranges.last())
    }
}

fn render_bound(bound: &Bound, open: &str) -> (text: String)
    ensures
        text@ == bound_text(bound@, open@),
{
    match bound {
        Bound::Included(value) => value.to_string(),
        Bound::Excluded(value) => value.to_string(),
        Bound::Unbounded => open.to_string(),
    }
}

impl Range {
    /// Shows the range.
    pub fn explain(&self) -> (text: String)
        ensures
            text@ == range_text(self@),
        decreases self,
    {
        match self {
            Range::Scope { min, max } => {
                let low_closed = match min {
                    Bound::Included(_) => true,
                    _ => false,
                };
                let high_closed = match max {
                    Bound::Included(_) => true,
                    _ => false,
                };
                let mut text = (if low_closed { "[" } else { "(" }).to_string();
                text.append(render_bound(min, "-inf").as_str());
                text.append(", ");
                text.append(render_bound(max, "+inf").as_str());
                text.append(if high_closed { "]" } else { ")" });
                text
            },
            Range::Eq(value) => value.to_string(),
            Range::Dummy => "Dummy".to_string(),
            Range::SortedRanges(ranges) => {
                let mut text = String::new();
                let mut i: usize = 0;
                let ghost views = self@->SortedRanges_0;
                assert(views.take(0) =~= Seq::empty());
                while i < ranges.len()
                    invariant
                        i <= ranges.len(),
                        *self == Range::SortedRanges(*ranges),
                        views == self@->SortedRanges_0,
                        views.len() == ranges.len(),
                        text@ == range_texts(views.take(i as int)),
                    decreases ranges.len() - i,
                {
                    assert(decreases_to!(*self => self->SortedRanges_0@[i as int]));
                    if i > 0 {
                        text.append(", ");
                    }
                    text.append(ranges[i].explain().as_str());
                    proof {
                        let next = views.take(i + 1);
                        assert(next.drop_last() =~= views.take(i as int));
                        assert(next.last() == ranges@[i as int]@);
                        if i == 0 {
                            assert(text@ =~= range_text(next[0]));
                        }
                    }
                    i += 1;
                }
                assert(views.take(i as int) =~= views);
                text
            },
        }
    }
}

/// The order of the rows.
pub open spec fn sort_option_text(arena: ArenaView, option: SortOptionView) -> Seq<char> {
    match option {
        SortOptionView::OrderBy { fields, ignore_prefix_len } => "OrderBy: ("@ + explain_list(
            arena,
            fields,
            ", "@,
        ) + ") ignore_prefix_len: "@ + decimal_text(ignore_prefix_len as int),
        SortOptionView::Follow => "Follow"@,
        SortOptionView::Nothing => "None"@,
    }
}

/// The name of an implementation without an index.
pub open spec fn impl_name(plan: PlanImpl) -> Seq<char> {
    match plan {
        PlanImpl::Dummy => "Dummy"@,
        PlanImpl::SimpleAggregate => "SimpleAggregate"@,
        PlanImpl::HashAggregate => "HashAggregate"@,
        PlanImpl::StreamAggregate => "StreamAggregate"@,
        PlanImpl::StreamDistinct => "StreamDistinct"@,
        PlanImpl::Filter => "Filter"@,
        PlanImpl::HashJoin => "HashJoin"@,
        PlanImpl::NestLoopJoin => "NestLoopJoin"@,
        PlanImpl::Project => "Project"@,
        PlanImpl::SeqScan => "SeqScan"@,
        PlanImpl::FunctionScan => "FunctionScan"@,
        PlanImpl::IndexScan(_) => "IndexScan"@,
        PlanImpl::Sort => "Sort"@,
        PlanImpl::Limit => "Limit"@,
        PlanImpl::TopK => "TopK"@,
        PlanImpl::Values => "Values"@,
        PlanImpl::Window => "Window"@,
        PlanImpl::MarkApply => "MarkApply"@,
        PlanImpl::ScalarApply => "ScalarApply"@,
        PlanImpl::ScalarSubquery => "ScalarSubquery"@,
        PlanImpl::Insert => "Insert"@,
        PlanImpl::Update => "Update"@,
        PlanImpl::Delete => "Delete"@,
        PlanImpl::AddColumn => "AddColumn"@,
        PlanImpl::ChangeColumn => "ChangeColumn"@,
        PlanImpl::DropColumn => "DropColumn"@,
        PlanImpl::CreateTable => "CreateTable"@,
        PlanImpl::DropTable => "DropTable"@,
        PlanImpl::Truncate => "Truncate"@,
        PlanImpl::CopyFromFile => "CopyFromFile"@,
        PlanImpl::CopyToFile => "CopyToFile"@,
        PlanImpl::Analyze => "Analyze"@,
    }
}

/// An implementation: an index scan with its index and what is looked up in it.
pub open spec fn impl_text(arena: ArenaView, plan: PlanImplView) -> Seq<char> {
    match plan {
        PlanImplView::Plain(plan) => impl_name(plan),
        PlanImplView::IndexScan(info) => "IndexScan By "@ + arena.indexes[info.meta.0 as int].name
            + " => "@ + (match info.lookup {
            Some(IndexLookupView::Probe) => "Probe ?"@,
            Some(IndexLookupView::Static(range)) => range_text(range),
            None => "EMPTY"@,
        }),
    }
}

/// The chosen implementation, and the order of its rows.
pub open spec fn physical_text(arena: ArenaView, option: PhysicalOptionView) -> Seq<char> {
    impl_text(arena, option.plan) + " => (Sort Option: "@ + sort_option_text(
        arena,
        option.sort_option,
    ) + ")"@
}

fn render_impl_name(plan: &PlanImpl) -> (text: &'static str)
    ensures
        text@ == impl_name(*plan),
{
    match plan {
        PlanImpl::Dummy => "Dummy",
        PlanImpl::SimpleAggregate => "SimpleAggregate",
        PlanImpl::HashAggregate => "HashAggregate",
        PlanImpl::StreamAggregate => "StreamAggregate",
        PlanImpl::StreamDistinct => "StreamDistinct",
        PlanImpl::Filter => "Filter",
        PlanImpl::HashJoin => "HashJoin",
        PlanImpl::NestLoopJoin => "NestLoopJoin",
        PlanImpl::Project => "Project",
        PlanImpl::SeqScan => "SeqScan",
        PlanImpl::FunctionScan => "FunctionScan",
        PlanImpl::IndexScan(_) => "IndexScan",
        PlanImpl::Sort => "Sort",
        PlanImpl::Limit => "Limit",
        PlanImpl::TopK => "TopK",
        PlanImpl::Values => "Values",
        PlanImpl::Window => "Window",
        PlanImpl::MarkApply => "MarkApply",
        PlanImpl::ScalarApply => "ScalarApply",
        PlanImpl::ScalarSubquery => "ScalarSubquery",
        PlanImpl::Insert => "Insert",
        PlanImpl::Update => "Update",
        PlanImpl::Delete => "Delete",
        PlanImpl::AddColumn => "AddColumn",
        PlanImpl::ChangeColumn => "ChangeColumn",
        PlanImpl::DropColumn => "DropColumn",
        PlanImpl::CreateTable => "CreateTable",
        PlanImpl::DropTable => "DropTable",
        PlanImpl::Truncate => "Truncate",
        PlanImpl::CopyFromFile => "CopyFromFile",
        PlanImpl::CopyToFile => "CopyToFile",
        PlanImpl::Analyze => "Analyze",
    }
}

fn render_sort_option(option: &SortOption, arena: &PlanArena) -> (text: String)
    requires
        arena@.wf(),
        option@.valid(arena@),
    ensures
        text@ == sort_option_text(arena@, option@),
{
    match option {
        SortOption::OrderBy { fields, ignore_prefix_len } => {
            let mut text = "OrderBy: (".to_string();
            text.append(fmt_explain_list(fields, ", ", arena).as_str());
            text.append(") ignore_prefix_len: ");
            text.append(unsigned_text(*ignore_prefix_len as u64).as_str());
            text
        },
        SortOption::Follow => "Follow".to_string(),
        SortOption::Nothing => "None".to_string(),
    }
}

impl PhysicalOption {
    /// Shows the implementation.
    pub fn explain(&self, arena: &PlanArena) -> (text: String)
        requires
            arena@.wf(),
            self@.valid(arena@),
        ensures
            text@ == physical_text(arena@, self@),
    {
        let mut text = match &self.plan {
            PlanImpl::IndexScan(info) => {
                let mut text = "IndexScan By ".to_string();
                text.append(arena.index(info.meta).name.as_str());
                text.append(" => ");
                match &info.lookup {
                    Some(IndexLookup::Probe) => text.append("Probe ?"),
                    Some(IndexLookup::Static(range)) => text.append(range.explain().as_str()),
                    None => text.append("EMPTY"),
                }
                text
            },
            plain => render_impl_name(plain).to_string(),
        };
        text.append(" => (Sort Option: ");
        text.append(render_sort_option(&self.sort_option, arena).as_str());
        text.append(")");
        text
    }
}

/// A kind of join.
pub open spec fn join_type_text(ty: JoinType) -> Seq<char> {
    match ty {
        JoinType::Inner => "Inner"@,
        JoinType::LeftOuter => "LeftOuter"@,
        JoinType::RightOuter => "RightOuter"@,
        JoinType::Full => "Full"@,
        JoinType::Cross => "Cross"@,
    }
}

/// The condition of a join.
pub open spec fn condition_text(arena: ArenaView, on: JoinConditionView) -> Seq<char> {
    match on {
        JoinConditionView::On { on, filter } => (if on.len() > 0 {
            " On "@ + explain_list(arena, on, " AND "@)
        } else {
            Seq::empty()
        }) + (match filter {
            Some(filter) => " Where "@ + expr_text(arena, filter),
            None => Seq::empty(),
        }),
        JoinConditionView::Nothing => " Nothing"@,
    }
}

/// A number behind a label, where there is one.
pub open spec fn labelled_number(label: Seq<char>, n: Option<usize>) -> Seq<char> {
    match n {
        Some(n) => label + decimal_text(n as int),
        None => Seq::empty(),
    }
}

/// A step of a plan without its inputs.
pub open spec fn operator_text(arena: ArenaView, op: OperatorView) -> Seq<char> {
    match op {
        OperatorView::Aggregate(op) => "Aggregate ["@ + explain_list(arena, op.agg_calls, ", "@)
            + "]"@ + (if op.groupby_exprs.len() > 0 {
            " -> Group By ["@ + explain_list(arena, op.groupby_exprs, ", "@) + "]"@
        } else {
            Seq::empty()
        }),
        OperatorView::MarkApply(op) => MarkApplyOperator::text(op.kind),
        OperatorView::Filter(op) => "Filter "@ + expr_text(arena, op.predicate) + ", Is Having: "@
            + (if op.having {
            "true"@
        } else {
            "false"@
        }),
        OperatorView::Join(op) => join_type_text(op.join_type) + " Join"@ + condition_text(
            arena,
            op.on,
        ),
        OperatorView::Project(exprs) => "Projection ["@ + explain_list(arena, exprs, ", "@) + "]"@,
        OperatorView::TableScan(op) => "TableScan "@ + op.table_name + " -> ["@ + explain_list(
            arena,
            op.columns,
            ", "@,
        ) + "]"@ + labelled_number(", Limit: "@, op.limit.1) + labelled_number(
            ", Offset: "@,
            op.limit.0,
        ),
        OperatorView::FunctionScan(op) => "Function Scan: "@ + op.name + "("@ + explain_list(
            arena,
            op.args,
            ", "@,
        ) + ")"@,
        OperatorView::Sort(fields) => "Sort By "@ + explain_list(arena, fields, ", "@),
        OperatorView::Limit(op) => labelled_number("Limit "@, op.limit) + (if op.limit is Some
            && op.offset is Some {
            ", "@
        } else {
            Seq::empty()
        }) + labelled_number("Offset "@, op.offset),
        OperatorView::TopK(op) => labelled_number("Top "@, Some(op.limit)) + labelled_number(
            ", Offset "@,
            op.offset,
        ) + ", Sort By "@ + explain_list(arena, op.sort_fields, ", "@),
        OperatorView::Values(op) => labelled_number(
            "Values RowsLen: "@,
            Some(op.rows.len() as usize),
        ),
        OperatorView::Window(op) => "Window ["@ + explain_list(arena, op.functions, ", "@) + "]"@,
        OperatorView::Union(..) => "Union"@,
        OperatorView::SetMembership(kind, ..) => match kind {
            SetMembershipKind::Except => "Except"@,
            SetMembershipKind::Intersect => "Intersect"@,
        },
        OperatorView::RecursiveCte(_) => "RecursiveCte"@,
        OperatorView::RecursiveScan(_) => "RecursiveScan"@,
        OperatorView::Update(op) => "Update "@ + op.table_name + " set "@ + explain_list(
            arena,
            op.value_exprs,
            ", "@,
        ),
        OperatorView::Delete(op) => "Delete "@ + op.table_name,
        OperatorView::Analyze(op) => "Analyze "@ + op.table_name,
        OperatorView::CreateTable(op) => "Create "@ + op.table_name + " -> ["@ + explain_list(
            arena,
            op.columns,
            ", "@,
        ) + "]"@,
        OperatorView::CreateIndex(op) => "Create Index "@ + op.index_name + " On "@ + op.table_name,
        OperatorView::Plain(op) => match op {
            Operator::ScalarApply(_) => "ScalarApply"@,
            Operator::ScalarSubquery(_) => "ScalarSubquery"@,
            Operator::ShowTable => "Show Tables"@,
            Operator::ShowView => "Show Views"@,
            Operator::Explain => "Explain"@,
            Operator::Describe(op) => "Describe "@ + op.table_name@,
            Operator::Insert(op) => (if op.is_overwrite {
                "Insert Overwrite "@
            } else {
                "Insert "@
            }) + op.table_name@,
            Operator::CopyFromFile(op) => "Copy "@ + op.path@ + " -> "@ + op.table_name@,
            Operator::CopyToFile(op) => "Copy "@ + op.table_name@ + " -> "@ + op.path@,
            Operator::AddColumn(op) => "Add Column "@ + op.table_name@,
            Operator::ChangeColumn(op) => "Change Column "@ + op.table_name@ + "."@
                + op.old_column_name@,
            Operator::DropColumn(op) => "Drop Column "@ + op.table_name@ + "."@ + op.column_name@,
            Operator::CreateView(op) => "Create View "@ + op.view_name@,
            Operator::DropTable(op) => "Drop Table "@ + op.table_name@,
            Operator::DropView(op) => "Drop View "@ + op.view_name@,
            Operator::DropIndex(op) => "Drop Index "@ + op.table_name@ + "."@ + op.index_name@,
            Operator::Truncate(op) => "Truncate "@ + op.table_name@,
            _ => "Dummy"@,
        },
    }
}

/// A plan: its step, the chosen implementation in brackets, and its inputs behind it.
pub open spec fn plan_text(arena: ArenaView, plan: PlanView) -> Seq<char>
    decreases plan,
{
    operator_text(arena, plan.operator) + (match plan.physical {
        Some(option) => " ["@ + physical_text(arena, option) + "]"@,
        None => Seq::empty(),
    }) + children_text(arena, plan.children)
}

/// The inputs, each behind a blank.
pub open spec fn children_text(arena: ArenaView, children: ChildrenView) -> Seq<char>
    decreases children,
{
    match children {
        ChildrenView::Leaf => Seq::empty(),
        ChildrenView::Only(plan) => " "@ + plan_text(arena, *plan),
        ChildrenView::Twins { left, right } => " "@ + plan_text(arena, *left) + " "@ + plan_text(
            arena,
            *right,
        ),
    }
}

fn append_number(text: &mut String, label: &str, n: Option<usize>)
    ensures
        final(text)@ == old(text)@ + labelled_number(label@, n),
{
    match n {
        Some(n) => {
            text.append(label);
            text.append(unsigned_text(n as u64).as_str());
            assert(text@ =~= old(text)@ + (label@ + decimal_text(n as int)));
        },
        None => {
            assert(text@ =~= old(text)@ + Seq::<char>::empty());
        },
    }
}

fn concat3(first: &str, second: &str, third: &str) -> (text: String)
    ensures
        text@ == first@ + second@ + third@,
{
    let mut text = first.to_string();
    text.append(second);
    text.append(third);
    text
}

impl Operator {
    /// Shows the step.
    #[verifier::rlimit(40)]
    pub fn explain(&self, arena: &PlanArena) -> (text: String)
        requires
            arena@.wf(),
            self@.valid(arena@),
        ensures
            text@ == operator_text(arena@, self@),
    {
        match self {
            Operator::Dummy => "Dummy".to_string(),
            Operator::Aggregate(op) => {
                let mut text = concat3(
                    "Aggregate [",
                    fmt_explain_list(&op.agg_calls, ", ", arena).as_str(),
                    "]",
                );
                let ghost head = text@;
                if op.groupby_exprs.len() > 0 {
                    text.append(
                        concat3(
                            " -> Group By [",
                            fmt_explain_list(&op.groupby_exprs, ", ", arena).as_str(),
                            "]",
                        ).as_str(),
                    );
                } else {
                    assert(text@ =~= head + Seq::<char>::empty());
                }
                text
            },
            Operator::ScalarApply(_) => "ScalarApply".to_string(),
            Operator::MarkApply(op) => op.to_string(),
            Operator::Filter(op) => {
                let mut text = concat3(
                    "Filter ",
                    op.predicate.explain(arena).as_str(),
                    ", Is Having: ",
                );
                text.append(if op.having { "true" } else { "false" });
                text
            },
            Operator::Join(op) => {
                let mut text = (match op.join_type {
                    JoinType::Inner => "Inner",
                    JoinType::LeftOuter => "LeftOuter",
                    JoinType::RightOuter => "RightOuter",
                    JoinType::Full => "Full",
                    JoinType::Cross => "Cross",
                }).to_string();
                text.append(" Join");
                let condition = render_condition(&op.on, arena);
                text.append(condition.as_str());
                text
            },
            Operator::Project(op) => concat3(
                "Projection [",
                fmt_explain_list(&op.exprs, ", ", arena).as_str(),
                "]",
            ),
            Operator::ScalarSubquery(_) => "ScalarSubquery".to_string(),
            Operator::TableScan(op) => {
                let mut text = concat3("TableScan ", op.table_name.as_str(), " -> [");
                text.append(fmt_explain_list(&op.columns, ", ", arena).as_str());
                text.append("]");
                append_number(&mut text, ", Limit: ", op.limit.1);
                append_number(&mut text, ", Offset: ", op.limit.0);
                text
            },
            Operator::FunctionScan(op) => {
                let mut text = concat3("Function Scan: ", op.name.as_str(), "(");
                text.append(fmt_explain_list(&op.args, ", ", arena).as_str());
                text.append(")");
                text
            },
            Operator::Sort(op) => {
                let mut text = "Sort By ".to_string();
                text.append(fmt_explain_list(&op.sort_fields, ", ", arena).as_str());
                text
            },
            Operator::Limit(op) => {
                let mut text = String::new();
                append_number(&mut text, "Limit ", op.limit);
                assert(text@ =~= labelled_number("Limit "@, op.limit));
                let ghost head = text@;
                if op.limit.is_some() && op.offset.is_some() {
                    text.append(", ");
                } else {
                    assert(text@ =~= head + Seq::<char>::empty());
                }
                append_number(&mut text, "Offset ", op.offset);
                text
            },
            Operator::TopK(op) => {
                let mut text = String::new();
                append_number(&mut text, "Top ", Some(op.limit));
                assert(text@ =~= labelled_number("Top "@, Some(op.limit)));
                append_number(&mut text, ", Offset ", op.offset);
                text.append(", Sort By ");
                text.append(fmt_explain_list(&op.sort_fields, ", ", arena).as_str());
                text
            },
            Operator::Values(op) => {
                let mut text = String::new();
                append_number(&mut text, "Values RowsLen: ", Some(op.rows.len()));
                assert(text@ =~= labelled_number("Values RowsLen: "@, Some(op.rows.len())));
                text
            },
            Operator::Window(op) => concat3(
                "Window [",
                fmt_explain_list(&op.functions, ", ", arena).as_str(),
                "]",
            ),
            Operator::ShowTable => "Show Tables".to_string(),
            Operator::ShowView => "Show Views".to_string(),
            Operator::Explain => "Explain".to_string(),
            Operator::Describe(op) => {
                let mut text = "Describe ".to_string();
                text.append(op.table_name.as_str());
                text
            },
            Operator::Union(_) => "Union".to_string(),
            Operator::SetMembership(op) => match op.kind {
                SetMembershipKind::Except => "Except".to_string(),
                SetMembershipKind::Intersect => "Intersect".to_string(),
            },
            Operator::RecursiveCte(_) => "RecursiveCte".to_string(),
            Operator::RecursiveScan(_) => "RecursiveScan".to_string(),
            Operator::Insert(op) => {
                let mut text = (if op.is_overwrite {
                    "Insert Overwrite "
                } else {
                    "Insert "
                }).to_string();
                text.append(op.table_name.as_str());
                text
            },
            Operator::Update(op) => {
                let mut text = concat3("Update ", op.table_name.as_str(), " set ");
                assert forall|i: int| 0 <= i < op.value_exprs@.len() implies (
                #[trigger] op.value_exprs@[i]).known(arena@) by {
                    let exprs = self@->Update_0.value_exprs;
                    assert(exprs == op.value_exprs@);
                    assert(arena@.has_column(exprs[i].0));
                }
                text.append(fmt_explain_list(&op.value_exprs, ", ", arena).as_str());
                text
            },
            Operator::Delete(op) => {
                let mut text = "Delete ".to_string();
                text.append(op.table_name.as_str());
                text
            },
            Operator::Analyze(op) => {
                let mut text = "Analyze ".to_string();
                text.append(op.table_name.as_str());
                text
            },
            Operator::CopyFromFile(op) => {
                let mut text = concat3("Copy ", op.path.as_str(), " -> ");
                text.append(op.table_name.as_str());
                text
            },
            Operator::CopyToFile(op) => {
                let mut text = concat3("Copy ", op.table_name.as_str(), " -> ");
                text.append(op.path.as_str());
                text
            },
            Operator::AddColumn(op) => {
                let mut text = "Add Column ".to_string();
                text.append(op.table_name.as_str());
                text
            },
            Operator::ChangeColumn(op) => {
                let mut text = concat3("Change Column ", op.table_name.as_str(), ".");
                text.append(op.old_column_name.as_str());
                text
            },
            Operator::DropColumn(op) => {
                let mut text = concat3("Drop Column ", op.table_name.as_str(), ".");
                text.append(op.column_name.as_str());
                text
            },
            Operator::CreateTable(op) => {
                let mut text = concat3("Create ", op.table_name.as_str(), " -> [");
                text.append(fmt_explain_list(&op.columns, ", ", arena).as_str());
                text.append("]");
                text
            },
            Operator::CreateIndex(op) => {
                let mut text = concat3("Create Index ", op.index_name.as_str(), " On ");
                text.append(op.table_name.as_str());
                text
            },
            Operator::CreateView(op) => {
                let mut text = "Create View ".to_string();
                text.append(op.view_name.as_str());
                text
            },
            Operator::DropTable(op) => {
                let mut text = "Drop Table ".to_string();
                text.append(op.table_name.as_str());
                text
            },
            Operator::DropView(op) => {
                let mut text = "Drop View ".to_string();
                text.append(op.view_name.as_str());
                text
            },
            Operator::DropIndex(op) => {
                let mut text = concat3("Drop Index ", op.table_name.as_str(), ".");
                text.append(op.index_name.as_str());
                text
            },
            Operator::Truncate(op) => {
                let mut text = "Truncate ".to_string();
                text.append(op.table_name.as_str());
                text
            },
        }
    }
}

fn render_condition(on: &JoinCondition, arena: &PlanArena) -> (text: String)
    requires
        arena@.wf(),
        on@ matches JoinConditionView::On { on, filter } ==> {
            &&& valid_pairs(arena@, on)
            &&& filter matches Some(expr) ==> arena@.has_expr(expr)
        },
    ensures
        text@ == condition_text(arena@, on@),
{
    match on {
        JoinCondition::On { on, filter } => {
            let mut text = String::new();
            if on.len() > 0 {
                text.append(" On ");
                text.append(fmt_explain_list(on, " AND ", arena).as_str());
                assert(text@ =~= " On "@ + explain_list(arena@, on@, " AND "@));
            }
            let ghost head = text@;
            match filter {
                Some(filter) => {
                    text.append(" Where ");
                    text.append(filter.explain(arena).as_str());
                    assert(text@ =~= head + (" Where "@ + expr_text(arena@, *filter)));
                },
                None => {
                    assert(text@ =~= head + Seq::<char>::empty());
                },
            }
            text
        },
        JoinCondition::Nothing => " Nothing".to_string(),
    }
}

impl Childrens {
    fn append_to(&self, text: &mut String, arena: &PlanArena)
        requires
            arena@.wf(),
            self@.valid(arena@),
        ensures
            final(text)@ == old(text)@ + children_text(arena@, self@),
        decreases self,
    {
        match self {
            Childrens::Leaf => {
                assert(text@ =~= old(text)@ + Seq::<char>::empty());
            },
            Childrens::Only(plan) => {
                text.append(" ");
                text.append(plan.explain(arena, 0).as_str());
                assert(text@ =~= old(text)@ + (" "@ + plan_text(arena@, plan@)));
            },
            Childrens::Twins { left, right } => {
                text.append(" ");
                text.append(left.explain(arena, 0).as_str());
                text.append(" ");
                text.append(right.explain(arena, 0).as_str());
                assert(text@ =~= old(text)@ + (" "@ + plan_text(arena@, left@) + " "@ + plan_text(
                    arena@,
                    right@,
                )));
            },
        }
    }
}

impl LogicalPlan {
    /// Shows the plan behind as many blanks as asked for.
    pub fn explain(&self, arena: &PlanArena, indentation: usize) -> (text: String)
        requires
            arena@.wf(),
            self@.valid(arena@),
        ensures
            text@ == blanks(indentation as nat) + plan_text(arena@, self@),
            indentation == 0 ==> text@ == plan_text(arena@, self@),
        decreases self,
    {
        let mut text = blank_text(indentation);
        text.append(self.operator.explain(arena).as_str());
        match &self.physical_option {
            Some(option) => {
                text.append(" [");
                text.append(option.explain(arena).as_str());
                text.append("]");
            },
            None => {},
        }
        self.childrens.append_to(&mut text, arena);
        assert(text@ =~= blanks(indentation as nat) + plan_text(arena@, self@));
        assert(indentation == 0 ==> text@ =~= plan_text(arena@, self@));
        text
    }
}

} // verus!
