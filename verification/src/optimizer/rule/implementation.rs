//! Rules that choose how operators are carried out.

use crate::errors::DatabaseError;
use crate::planner::arena::{ArenaView, PlanArena};
use crate::planner::operator::{
    Operator, OperatorView, PhysicalOption, PhysicalOptionView, PlanImpl, PlanImplView, SortOption,
    SortOptionView,
};
use vstd::prelude::*;

verus! {

/// The rules that choose how operators are carried out.
#[derive(Clone, Copy, Debug, PartialEq, Eq, Structural)]
pub enum ImplementationRuleImpl {
    GroupByAggregate,
    SimpleAggregate,
    Dummy,
    Filter,
    HashJoin,
    Limit,
    MarkApply,
    Projection,
    ScalarApply,
    ScalarSubquery,
    SeqScan,
    IndexScan,
    FunctionScan,
    Sort,
    TopK,
    Values,
    Window,
    Analyze,
    CopyFromFile,
    CopyToFile,
    Delete,
    Insert,
    Update,
    AddColumn,
    ChangeColumn,
    CreateTable,
    DropColumn,
    DropTable,
    Truncate,
}

/// Whether a rule is about an operator.
pub open spec fn rule_is_for(rule: ImplementationRuleImpl, operator: OperatorView) -> bool {
    match (rule, operator) {
        (ImplementationRuleImpl::GroupByAggregate, OperatorView::Aggregate(op)) => {
            op.groupby_exprs.len() > 0
        },
        (ImplementationRuleImpl::SimpleAggregate, OperatorView::Aggregate(op)) => {
            op.groupby_exprs.len() == 0
        },
        (ImplementationRuleImpl::Dummy, OperatorView::Plain(Operator::Dummy)) => true,
        (ImplementationRuleImpl::Filter, OperatorView::Filter(_)) => true,
        (ImplementationRuleImpl::HashJoin, OperatorView::Join(_)) => true,
        (ImplementationRuleImpl::Limit, OperatorView::Limit(_)) => true,
        (ImplementationRuleImpl::MarkApply, OperatorView::MarkApply(_)) => true,
        (ImplementationRuleImpl::Projection, OperatorView::Project(_)) => true,
        (
            ImplementationRuleImpl::ScalarApply,
            OperatorView::Plain(Operator::ScalarApply(_)),
        ) => true,
        (
            ImplementationRuleImpl::ScalarSubquery,
            OperatorView::Plain(Operator::ScalarSubquery(_)),
        ) => true,
        (ImplementationRuleImpl::SeqScan, OperatorView::TableScan(_)) => true,
        (ImplementationRuleImpl::IndexScan, OperatorView::TableScan(_)) => true,
        (ImplementationRuleImpl::FunctionScan, OperatorView::FunctionScan(_)) => true,
        (ImplementationRuleImpl::Sort, OperatorView::Sort(_)) => true,
        (ImplementationRuleImpl::TopK, OperatorView::TopK(_)) => true,
        (ImplementationRuleImpl::Values, OperatorView::Values(_)) => true,
        (ImplementationRuleImpl::Window, OperatorView::Window(_)) => true,
        (ImplementationRuleImpl::Analyze, OperatorView::Analyze(_)) => true,
        (
            ImplementationRuleImpl::CopyFromFile,
            OperatorView::Plain(Operator::CopyFromFile(_)),
        ) => true,
        (ImplementationRuleImpl::CopyToFile, OperatorView::Plain(Operator::CopyToFile(_))) => true,
        (ImplementationRuleImpl::Delete, OperatorView::Delete(_)) => true,
        (ImplementationRuleImpl::Insert, OperatorView::Plain(Operator::Insert(_))) => true,
        (ImplementationRuleImpl::Update, OperatorView::Update(_)) => true,
        (ImplementationRuleImpl::AddColumn, OperatorView::Plain(Operator::AddColumn(_))) => true,
        (
            ImplementationRuleImpl::ChangeColumn,
            OperatorView::Plain(Operator::ChangeColumn(_)),
        ) => true,
        (ImplementationRuleImpl::CreateTable, OperatorView::CreateTable(_)) => true,
        (ImplementationRuleImpl::DropColumn, OperatorView::Plain(Operator::DropColumn(_))) => true,
        (ImplementationRuleImpl::DropTable, OperatorView::Plain(Operator::DropTable(_))) => true,
        (ImplementationRuleImpl::Truncate, OperatorView::Plain(Operator::Truncate(_))) => true,
        _ => false,
    }
}

/// The only way to carry out an operator, where a rule that knows it is among the given ones.
pub open spec fn direct_option(
    rules: Seq<ImplementationRuleImpl>,
    operator: OperatorView,
) -> Option<PhysicalOptionView> {
    match operator {
        OperatorView::Aggregate(op) => if op.groupby_exprs.len() > 0 {
            option_if(
                rules,
                ImplementationRuleImpl::GroupByAggregate,
                PlanImpl::HashAggregate,
                SortOptionView::Nothing,
            )
        } else {
            option_if(
                rules,
                ImplementationRuleImpl::SimpleAggregate,
                PlanImpl::SimpleAggregate,
                SortOptionView::Nothing,
            )
        },
        OperatorView::Filter(_) => option_if(
            rules,
            ImplementationRuleImpl::Filter,
            PlanImpl::Filter,
            SortOptionView::Follow,
        ),
        OperatorView::Join(op) => option_if(
            rules,
            ImplementationRuleImpl::HashJoin,
            op.plan_impl(),
            SortOptionView::Nothing,
        ),
        OperatorView::Limit(_) => option_if(
            rules,
            ImplementationRuleImpl::Limit,
            PlanImpl::Limit,
            SortOptionView::Follow,
        ),
        OperatorView::MarkApply(_) => option_if(
            rules,
            ImplementationRuleImpl::MarkApply,
            PlanImpl::MarkApply,
            SortOptionView::Follow,
        ),
        OperatorView::Project(_) => option_if(
            rules,
            ImplementationRuleImpl::Projection,
            PlanImpl::Project,
            SortOptionView::Follow,
        ),
        OperatorView::FunctionScan(_) => option_if(
            rules,
            ImplementationRuleImpl::FunctionScan,
            PlanImpl::FunctionScan,
            SortOptionView::Nothing,
        ),
        OperatorView::Sort(fields) => option_if(
            rules,
            ImplementationRuleImpl::Sort,
            PlanImpl::Sort,
            SortOptionView::OrderBy { fields, ignore_prefix_len: 0 },
        ),
        OperatorView::TopK(op) => option_if(
            rules,
            ImplementationRuleImpl::TopK,
            PlanImpl::TopK,
            SortOptionView::OrderBy { fields: op.sort_fields, ignore_prefix_len: 0 },
        ),
        OperatorView::Values(_) => option_if(
            rules,
            ImplementationRuleImpl::Values,
            PlanImpl::Values,
            SortOptionView::Nothing,
        ),
        OperatorView::Window(op) => option_if(
            rules,
            ImplementationRuleImpl::Window,
            PlanImpl::Window,
            op.sort_option(),
        ),
        OperatorView::Analyze(_) => option_if(
            rules,
            ImplementationRuleImpl::Analyze,
            PlanImpl::Analyze,
            SortOptionView::Nothing,
        ),
        OperatorView::Delete(_) => option_if(
            rules,
            ImplementationRuleImpl::Delete,
            PlanImpl::Delete,
            SortOptionView::Nothing,
        ),
        OperatorView::Update(_) => option_if(
            rules,
            ImplementationRuleImpl::Update,
            PlanImpl::Update,
            SortOptionView::Nothing,
        ),
        OperatorView::CreateTable(_) => option_if(
            rules,
            ImplementationRuleImpl::CreateTable,
            PlanImpl::CreateTable,
            SortOptionView::Nothing,
        ),
        OperatorView::Plain(operator) => direct_plain_option(rules, operator),
        _ => None,
    }
}

/// The only way to carry out an operator that stands for itself.
pub open spec fn direct_plain_option(
    rules: Seq<ImplementationRuleImpl>,
    operator: Operator,
) -> Option<PhysicalOptionView> {
    match operator {
        Operator::Dummy => option_if(
            rules,
            ImplementationRuleImpl::Dummy,
            PlanImpl::Dummy,
            SortOptionView::Nothing,
        ),
        Operator::ScalarApply(_) => option_if(
            rules,
            ImplementationRuleImpl::ScalarApply,
            PlanImpl::ScalarApply,
            SortOptionView::Follow,
        ),
        Operator::ScalarSubquery(_) => option_if(
            rules,
            ImplementationRuleImpl::ScalarSubquery,
            PlanImpl::ScalarSubquery,
            SortOptionView::Follow,
        ),
        Operator::CopyFromFile(_) => option_if(
            rules,
            ImplementationRuleImpl::CopyFromFile,
            PlanImpl::CopyFromFile,
            SortOptionView::Nothing,
        ),
        Operator::CopyToFile(_) => option_if(
            rules,
            ImplementationRuleImpl::CopyToFile,
            PlanImpl::CopyToFile,
            SortOptionView::Nothing,
        ),
        Operator::Insert(_) => option_if(
            rules,
            ImplementationRuleImpl::Insert,
            PlanImpl::Insert,
            SortOptionView::Nothing,
        ),
        Operator::AddColumn(_) => option_if(
            rules,
            ImplementationRuleImpl::AddColumn,
            PlanImpl::AddColumn,
            SortOptionView::Nothing,
        ),
        Operator::ChangeColumn(_) => option_if(
            rules,
            ImplementationRuleImpl::ChangeColumn,
            PlanImpl::ChangeColumn,
            SortOptionView::Nothing,
        ),
        Operator::DropColumn(_) => option_if(
            rules,
            ImplementationRuleImpl::DropColumn,
            PlanImpl::DropColumn,
            SortOptionView::Nothing,
        ),
        Operator::DropTable(_) => option_if(
            rules,
            ImplementationRuleImpl::DropTable,
            PlanImpl::DropTable,
            SortOptionView::Nothing,
        ),
        Operator::Truncate(_) => option_if(
            rules,
            ImplementationRuleImpl::Truncate,
            PlanImpl::Truncate,
            SortOptionView::Nothing,
        ),
        _ => None,
    }
}

/// An option, if its rule is among the given ones.
pub open spec fn option_if(
    rules: Seq<ImplementationRuleImpl>,
    rule: ImplementationRuleImpl,
    plan: PlanImpl,
    sort_option: SortOptionView,
) -> Option<PhysicalOptionView> {
    if rules.contains(rule) {
        Some(PhysicalOptionView { plan: PlanImplView::Plain(plan), sort_option })
    } else {
        None
    }
}

/// The rules that a pipeline may use.
#[derive(Clone, Debug)]
pub struct ImplementationRuleIndex {
    pub rules: Vec<ImplementationRuleImpl>,
}

impl ImplementationRuleIndex {
    pub fn new(implementations: Vec<ImplementationRuleImpl>) -> (res: Self)
        ensures
            res.rules@ == implementations@,
    {
        ImplementationRuleIndex { rules: implementations }
    }

    pub fn is_empty(&self) -> (res: bool)
        ensures
            res == (self.rules@.len() == 0),
    {
        self.rules.len() == 0
    }

    /// Whether a rule may be used.
    pub fn contains(&self, implementation: ImplementationRuleImpl) -> (res: bool)
        ensures
            res == self.rules@.contains(implementation),
    {
        let mut i: usize = 0;
        while i < self.rules.len()
            invariant
                i <= self.rules.len(),
                forall|j: int| 0 <= j < i ==> self.rules@[j] != implementation,
            decreases self.rules.len() - i,
        {
            if self.rules[i] == implementation {
                return true;
            }
            i += 1;
        }
        false
    }

    fn option(
        &self,
        implementation: ImplementationRuleImpl,
        plan: PlanImpl,
        sort_option: SortOption,
    ) -> (res: Option<PhysicalOption>)
        requires
            !(plan is IndexScan),
        ensures
            match res {
                Some(option) => option_if(self.rules@, implementation, plan, sort_option@) == Some(
                    option@,
                ),
                None => option_if(self.rules@, implementation, plan, sort_option@) is None,
            },
    {
        if self.contains(implementation) {
            Some(PhysicalOption::new(plan, sort_option))
        } else {
            None
        }
    }

    /// The only way to carry out an operator, where its rule may be used.
    pub fn direct_physical_option(&self, operator: &Operator) -> (res: Option<PhysicalOption>)
        ensures
            match res {
                Some(option) => direct_option(self.rules@, operator@) == Some(option@),
                None => direct_option(self.rules@, operator@) is None,
            },
    {
        match operator {
            Operator::Aggregate(op) => if op.groupby_exprs.len() > 0 {
                self.option(
                    ImplementationRuleImpl::GroupByAggregate,
                    PlanImpl::HashAggregate,
                    SortOption::Nothing,
                )
            } else {
                self.option(
                    ImplementationRuleImpl::SimpleAggregate,
                    PlanImpl::SimpleAggregate,
                    SortOption::Nothing,
                )
            },
            Operator::Dummy => self.option(
                ImplementationRuleImpl::Dummy,
                PlanImpl::Dummy,
                SortOption::Nothing,
            ),
            Operator::Filter(_) => self.option(
                ImplementationRuleImpl::Filter,
                PlanImpl::Filter,
                SortOption::Follow,
            ),
            Operator::Join(join_op) => self.option(
                ImplementationRuleImpl::HashJoin,
                join_op.plan_impl(),
                SortOption::Nothing,
            ),
            Operator::Limit(_) => self.option(
                ImplementationRuleImpl::Limit,
                PlanImpl::Limit,
                SortOption::Follow,
            ),
            Operator::MarkApply(_) => self.option(
                ImplementationRuleImpl::MarkApply,
                PlanImpl::MarkApply,
                SortOption::Follow,
            ),
            Operator::Project(_) => self.option(
                ImplementationRuleImpl::Projection,
                PlanImpl::Project,
                SortOption::Follow,
            ),
            Operator::ScalarApply(_) => self.option(
                ImplementationRuleImpl::ScalarApply,
                PlanImpl::ScalarApply,
                SortOption::Follow,
            ),
            Operator::ScalarSubquery(_) => self.option(
                ImplementationRuleImpl::ScalarSubquery,
                PlanImpl::ScalarSubquery,
                SortOption::Follow,
            ),
            Operator::FunctionScan(_) => self.option(
                ImplementationRuleImpl::FunctionScan,
                PlanImpl::FunctionScan,
                SortOption::Nothing,
            ),
            Operator::Sort(op) => {
                let fields = op.sort_fields.clone();
                assert(fields@ =~= op.sort_fields@);
                self.option(
                    ImplementationRuleImpl::Sort,
                    PlanImpl::Sort,
                    SortOption::OrderBy { fields, ignore_prefix_len: 0 },
                )
            },
            Operator::TopK(op) => {
                let fields = op.sort_fields.clone();
                assert(fields@ =~= op.sort_fields@);
                self.option(
                    ImplementationRuleImpl::TopK,
                    PlanImpl::TopK,
                    SortOption::OrderBy { fields, ignore_prefix_len: 0 },
                )
            },
            Operator::Values(_) => self.option(
                ImplementationRuleImpl::Values,
                PlanImpl::Values,
                SortOption::Nothing,
            ),
            Operator::Window(op) => self.option(
                ImplementationRuleImpl::Window,
                PlanImpl::Window,
                op.sort_option(),
            ),
            Operator::Analyze(_) => self.option(
                ImplementationRuleImpl::Analyze,
                PlanImpl::Analyze,
                SortOption::Nothing,
            ),
            Operator::CopyFromFile(_) => self.option(
                ImplementationRuleImpl::CopyFromFile,
                PlanImpl::CopyFromFile,
                SortOption::Nothing,
            ),
            Operator::CopyToFile(_) => self.option(
                ImplementationRuleImpl::CopyToFile,
                PlanImpl::CopyToFile,
                SortOption::Nothing,
            ),
            Operator::Delete(_) => self.option(
                ImplementationRuleImpl::Delete,
                PlanImpl::Delete,
                SortOption::Nothing,
            ),
            Operator::Insert(_) => self.option(
                ImplementationRuleImpl::Insert,
                PlanImpl::Insert,
                SortOption::Nothing,
            ),
            Operator::Update(_) => self.option(
                ImplementationRuleImpl::Update,
                PlanImpl::Update,
                SortOption::Nothing,
            ),
            Operator::AddColumn(_) => self.option(
                ImplementationRuleImpl::AddColumn,
                PlanImpl::AddColumn,
                SortOption::Nothing,
            ),
            Operator::ChangeColumn(_) => self.option(
                ImplementationRuleImpl::ChangeColumn,
                PlanImpl::ChangeColumn,
                SortOption::Nothing,
            ),
            Operator::CreateTable(_) => self.option(
                ImplementationRuleImpl::CreateTable,
                PlanImpl::CreateTable,
                SortOption::Nothing,
            ),
            Operator::DropColumn(_) => self.option(
                ImplementationRuleImpl::DropColumn,
                PlanImpl::DropColumn,
                SortOption::Nothing,
            ),
            Operator::DropTable(_) => self.option(
                ImplementationRuleImpl::DropTable,
                PlanImpl::DropTable,
                SortOption::Nothing,
            ),
            Operator::Truncate(_) => self.option(
                ImplementationRuleImpl::Truncate,
                PlanImpl::Truncate,
                SortOption::Nothing,
            ),
            _ => None,
        }
    }

    /// The rules that are about an operator, in order.
    pub fn for_matching_operator(&self, operator: &Operator) -> (res: Vec<ImplementationRuleImpl>)
        ensures
            res@ == self.rules@.filter(
                |rule: ImplementationRuleImpl| rule_is_for(rule, operator@),
            ),
    {
        let ghost wanted = |rule: ImplementationRuleImpl| rule_is_for(rule, operator@);
        let mut res: Vec<ImplementationRuleImpl> = Vec::new();
        let mut i: usize = 0;
        proof {
            assert(self.rules@.take(0) =~= Seq::empty());
            reveal(Seq::filter);
            assert(res@ =~= self.rules@.take(0).filter(wanted));
        }
        while i < self.rules.len()
            invariant
                i <= self.rules.len(),
                wanted == (|rule: ImplementationRuleImpl| rule_is_for(rule, operator@)),
                res@ == self.rules@.take(i as int).filter(wanted),
            decreases self.rules.len() - i,
        {
            let rule = self.rules[i];
            proof {
                let next = self.rules@.take(i + 1);
                assert(next.drop_last() =~= self.rules@.take(i as int));
                assert(next.last() == rule);
                reveal(Seq::filter);
            }
            if rule.is_for(operator) {
                res.push(rule);
            }
            i += 1;
        }
        assert(self.rules@.take(i as int) =~= self.rules@);
        res
    }
}

impl ImplementationRuleImpl {
    /// Whether the rule is about an operator.
    pub fn is_for(&self, operator: &Operator) -> (res: bool)
        ensures
            res == rule_is_for(*self, operator@),
    {
        match (self, operator) {
            (ImplementationRuleImpl::GroupByAggregate, Operator::Aggregate(op)) => {
                op.groupby_exprs.len() > 0
            },
            (ImplementationRuleImpl::SimpleAggregate, Operator::Aggregate(op)) => {
                op.groupby_exprs.len() == 0
            },
            (ImplementationRuleImpl::Dummy, Operator::Dummy) => true,
            (ImplementationRuleImpl::Filter, Operator::Filter(_)) => true,
            (ImplementationRuleImpl::HashJoin, Operator::Join(_)) => true,
            (ImplementationRuleImpl::Limit, Operator::Limit(_)) => true,
            (ImplementationRuleImpl::MarkApply, Operator::MarkApply(_)) => true,
            (ImplementationRuleImpl::Projection, Operator::Project(_)) => true,
            (ImplementationRuleImpl::ScalarApply, Operator::ScalarApply(_)) => true,
            (ImplementationRuleImpl::ScalarSubquery, Operator::ScalarSubquery(_)) => true,
            (ImplementationRuleImpl::SeqScan, Operator::TableScan(_)) => true,
            (ImplementationRuleImpl::IndexScan, Operator::TableScan(_)) => true,
            (ImplementationRuleImpl::FunctionScan, Operator::FunctionScan(_)) => true,
            (ImplementationRuleImpl::Sort, Operator::Sort(_)) => true,
            (ImplementationRuleImpl::TopK, Operator::TopK(_)) => true,
            (ImplementationRuleImpl::Values, Operator::Values(_)) => true,
            (ImplementationRuleImpl::Window, Operator::Window(_)) => true,
            (ImplementationRuleImpl::Analyze, Operator::Analyze(_)) => true,
            (ImplementationRuleImpl::CopyFromFile, Operator::CopyFromFile(_)) => true,
            (ImplementationRuleImpl::CopyToFile, Operator::CopyToFile(_)) => true,
            (ImplementationRuleImpl::Delete, Operator::Delete(_)) => true,
            (ImplementationRuleImpl::Insert, Operator::Insert(_)) => true,
            (ImplementationRuleImpl::Update, Operator::Update(_)) => true,
            (ImplementationRuleImpl::AddColumn, Operator::AddColumn(_)) => true,
            (ImplementationRuleImpl::ChangeColumn, Operator::ChangeColumn(_)) => true,
            (ImplementationRuleImpl::CreateTable, Operator::CreateTable(_)) => true,
            (ImplementationRuleImpl::DropColumn, Operator::DropColumn(_)) => true,
            (ImplementationRuleImpl::DropTable, Operator::DropTable(_)) => true,
            (ImplementationRuleImpl::Truncate, Operator::Truncate(_)) => true,
            _ => false,
        }
    }
}

/// The best way found so far to carry out an operator, with its cost where that is known.
pub type BestPhysicalOption = Option<(PhysicalOption, Option<usize>)>;

/// The model of the best way found so far.
pub open spec fn best_view(best: BestPhysicalOption) -> Option<(PhysicalOptionView,
    Option<usize>)> {
    match best {
        Some((option, cost)) => Some((option@, cost)),
        None => None,
    }
}

/// Whether everything that the best way refers to is in the arena.
pub open spec fn best_valid(
    best: Option<(PhysicalOptionView, Option<usize>)>,
    arena: ArenaView,
) -> bool {
    best matches Some((option, _)) ==> option.valid(arena)
}

/// Rules that compare ways to carry out an operator by what is known about the data.
pub trait CostModel {
    /// What a rule makes of the best way found so far.
    spec fn improves(
        &self,
        rule: ImplementationRuleImpl,
        operator: OperatorView,
        arena: ArenaView,
        before: Option<(PhysicalOptionView, Option<usize>)>,
        after: Option<(PhysicalOptionView, Option<usize>)>,
        res: Result<(), DatabaseError>,
    ) -> bool;

    /// Lets a rule replace the best way found so far by a better one.
    fn update_best_option(
        &self,
        rule: ImplementationRuleImpl,
        operator: &Operator,
        arena: &PlanArena,
        best: &mut BestPhysicalOption,
    ) -> (res: Result<(), DatabaseError>)
        requires
            arena@.wf(),
            operator@.valid(arena@),
            best_valid(best_view(*old(best)), arena@),
        ensures
            self.improves(
                rule,
                operator@,
                arena@,
                best_view(*old(best)),
                best_view(*final(best)),
                res,
            ),
            best_valid(best_view(*final(best)), arena@),
    ;
}

/// A model without any knowledge about the data: tables are read from front to back.
#[derive(Debug, Default)]
pub struct NoStatistics;

impl CostModel for NoStatistics {
    open spec fn improves(
        &self,
        rule: ImplementationRuleImpl,
        operator: OperatorView,
        arena: ArenaView,
        before: Option<(PhysicalOptionView, Option<usize>)>,
        after: Option<(PhysicalOptionView, Option<usize>)>,
        res: Result<(), DatabaseError>,
    ) -> bool {
        &&& res == Ok::<(), DatabaseError>(())
        &&& after == if before is None && rule == ImplementationRuleImpl::SeqScan
            && operator is TableScan {
            Some(
                (
                    PhysicalOptionView {
                        plan: PlanImplView::Plain(PlanImpl::SeqScan),
                        sort_option: SortOptionView::Nothing,
                    },
                    None,
                ),
            )
        } else {
            before
        }
    }

    fn update_best_option(
        &self,
        rule: ImplementationRuleImpl,
        operator: &Operator,
        arena: &PlanArena,
        best: &mut BestPhysicalOption,
    ) -> (res: Result<(), DatabaseError>) {
        if best.is_none() && rule == ImplementationRuleImpl::SeqScan {
            if let Operator::TableScan(_) = operator {
                *best = Some((PhysicalOption::new(PlanImpl::SeqScan, SortOption::Nothing), None));
            }
        }
        Ok(())
    }
}

} // verus!
