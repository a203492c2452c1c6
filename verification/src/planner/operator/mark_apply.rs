//! Correlated applications of one input to each row of the other.

use crate::catalog::ColumnRef;
use crate::planner::arena::ExprRef;
use crate::planner::operator::Operator;
use crate::planner::{Childrens, LogicalPlan};
use vstd::prelude::*;

verus! {

/// Quantifier of a comparison with a subquery.
#[derive(Clone, Copy, Debug, PartialEq, Eq, Hash, Structural)]
pub enum MarkApplyQuantifier {
    Any,
    All,
}

/// What the application decides for each row.
#[derive(Clone, Copy, Debug, PartialEq, Eq, Hash, Structural)]
pub enum MarkApplyKind {
    Exists,
    Quantified(MarkApplyQuantifier),
    InnerJoin,
}

/// Application of the right input to each row of the left one.
#[derive(Debug, PartialEq, Eq, Hash)]
pub struct MarkApplyOperator {
    pub kind: MarkApplyKind,
    pub predicates: Vec<ExprRef>,
    pub output_column: Option<ColumnRef>,
    pub parameterized_probe: Option<ExprRef>,
}

/// Mathematical model of a [`MarkApplyOperator`].
pub struct MarkApplyView {
    pub kind: MarkApplyKind,
    pub predicates: Seq<ExprRef>,
    pub output_column: Option<ColumnRef>,
    pub parameterized_probe: Option<ExprRef>,
}

impl View for MarkApplyOperator {
    type V = MarkApplyView;

    open spec fn view(&self) -> MarkApplyView {
        MarkApplyView {
            kind: self.kind,
            predicates: self.predicates@,
            output_column: self.output_column,
            parameterized_probe: self.parameterized_probe,
        }
    }
}

impl Clone for MarkApplyOperator {
    fn clone(&self) -> (res: Self)
        ensures
            res@ == self@,
    {
        let predicates = self.predicates.clone();
        assert(predicates@ =~= self.predicates@);
        MarkApplyOperator {
            kind: self.kind,
            predicates,
            output_column: self.output_column,
            parameterized_probe: self.parameterized_probe,
        }
    }
}

impl MarkApplyOperator {
    /// Marks whether the right input has a row that meets the predicates.
    pub fn new_exists(output_column: ColumnRef, predicates: Vec<ExprRef>) -> (res: Self)
        ensures
            res@ == (MarkApplyView {
                kind: MarkApplyKind::Exists,
                predicates: predicates@,
                output_column: Some(output_column),
                parameterized_probe: None,
            }),
    {
        MarkApplyOperator {
            kind: MarkApplyKind::Exists,
            predicates,
            output_column: Some(output_column),
            parameterized_probe: None,
        }
    }

    /// The plan that marks existence.
    pub fn build_exists(
        left: LogicalPlan,
        right: LogicalPlan,
        output_column: ColumnRef,
        predicates: Vec<ExprRef>,
    ) -> (res: LogicalPlan)
        ensures
            res.operator matches Operator::MarkApply(op) && op@ == (MarkApplyView {
                kind: MarkApplyKind::Exists,
                predicates: predicates@,
                output_column: Some(output_column),
                parameterized_probe: None,
            }),
            *res.childrens == (Childrens::Twins { left: Box::new(left), right: Box::new(right) }),
            res.physical_option is None,
            res@.schema is None,
    {
        LogicalPlan::new(
            Operator::MarkApply(MarkApplyOperator::new_exists(output_column, predicates)),
            Childrens::Twins { left: Box::new(left), right: Box::new(right) },
        )
    }

    /// Marks whether the left row is among the right ones.
    pub fn new_in(output_column: ColumnRef, predicates: Vec<ExprRef>) -> (res: Self)
        ensures
            res@ == (MarkApplyView {
                kind: MarkApplyKind::Quantified(MarkApplyQuantifier::Any),
                predicates: predicates@,
                output_column: Some(output_column),
                parameterized_probe: None,
            }),
    {
        MarkApplyOperator::new_quantified(MarkApplyQuantifier::Any, output_column, predicates)
    }

    /// Marks whether any, or every, row of the right input meets the predicates.
    pub fn new_quantified(
        quantifier: MarkApplyQuantifier,
        output_column: ColumnRef,
        predicates: Vec<ExprRef>,
    ) -> (res: Self)
        ensures
            res@ == (MarkApplyView {
                kind: MarkApplyKind::Quantified(quantifier),
                predicates: predicates@,
                output_column: Some(output_column),
                parameterized_probe: None,
            }),
    {
        MarkApplyOperator {
            kind: MarkApplyKind::Quantified(quantifier),
            predicates,
            output_column: Some(output_column),
            parameterized_probe: None,
        }
    }

    /// The plan that marks membership.
    pub fn build_in(
        left: LogicalPlan,
        right: LogicalPlan,
        output_column: ColumnRef,
        predicates: Vec<ExprRef>,
    ) -> (res: LogicalPlan)
        ensures
            res.operator matches Operator::MarkApply(op) && op@ == (MarkApplyView {
                kind: MarkApplyKind::Quantified(MarkApplyQuantifier::Any),
                predicates: predicates@,
                output_column: Some(output_column),
                parameterized_probe: None,
            }),
            *res.childrens == (Childrens::Twins { left: Box::new(left), right: Box::new(right) }),
            res.physical_option is None,
            res@.schema is None,
    {
        MarkApplyOperator::build_quantified(
            left,
            right,
            MarkApplyQuantifier::Any,
            output_column,
            predicates,
        )
    }

    /// The plan that marks a quantified comparison.
    pub fn build_quantified(
        left: LogicalPlan,
        right: LogicalPlan,
        quantifier: MarkApplyQuantifier,
        output_column: ColumnRef,
        predicates: Vec<ExprRef>,
    ) -> (res: LogicalPlan)
        ensures
            res.operator matches Operator::MarkApply(op) && op@ == (MarkApplyView {
                kind: MarkApplyKind::Quantified(quantifier),
                predicates: predicates@,
                output_column: Some(output_column),
                parameterized_probe: None,
            }),
            *res.childrens == (Childrens::Twins { left: Box::new(left), right: Box::new(right) }),
            res.physical_option is None,
            res@.schema is None,
    {
        LogicalPlan::new(
            Operator::MarkApply(
                MarkApplyOperator::new_quantified(quantifier, output_column, predicates),
            ),
            Childrens::Twins { left: Box::new(left), right: Box::new(right) },
        )
    }

    /// The predicates that tie the two inputs.
    pub fn predicates(&self) -> (res: &Vec<ExprRef>)
        ensures
            *res == self.predicates,
            res@ == self@.predicates,
    {
        &self.predicates
    }

    /// The predicates, to be changed in place.
    pub fn predicates_mut(&mut self) -> (res: &mut Vec<ExprRef>)
        ensures
            *res == old(self).predicates,
            final(self)@ == (MarkApplyView { predicates: final(res)@, ..old(self)@ }),
    {
        &mut self.predicates
    }

    /// The column that holds the mark.
    pub fn output_column(&self) -> (res: &ColumnRef)
        requires
            self@.output_column is Some,
        ensures
            self@.output_column == Some(*res),
    {
        match &self.output_column {
            Some(column) => column,
            None => {
                assert(false);
                self.output_column.as_ref().unwrap()
            },
        }
    }

    /// Joins each left row with the right rows that the probe finds.
    pub fn new_inner_join(predicates: Vec<ExprRef>, probe: ExprRef) -> (res: Self)
        ensures
            res@ == (MarkApplyView {
                kind: MarkApplyKind::InnerJoin,
                predicates: predicates@,
                output_column: None,
                parameterized_probe: Some(probe),
            }),
    {
        MarkApplyOperator {
            kind: MarkApplyKind::InnerJoin,
            predicates,
            output_column: None,
            parameterized_probe: Some(probe),
        }
    }

    /// The expression of the left row by which the right input is searched.
    pub fn parameterized_probe(&self) -> (res: Option<&ExprRef>)
        ensures
            res is Some <==> self@.parameterized_probe is Some,
            res matches Some(probe) ==> self@.parameterized_probe == Some(*probe),
    {
        self.parameterized_probe.as_ref()
    }

    /// Sets, or clears, the expression by which the right input is searched.
    pub fn set_parameterized_probe(&mut self, probe: Option<ExprRef>)
        ensures
            final(self)@ == (MarkApplyView { parameterized_probe: probe, ..old(self)@ }),
    {
        self.parameterized_probe = probe;
    }

    /// The name under which the operator is shown.
    pub open spec fn text(kind: MarkApplyKind) -> Seq<char> {
        match kind {
            MarkApplyKind::InnerJoin => "InnerJoinApply"@,
            MarkApplyKind::Exists => "MarkExistsApply"@,
            MarkApplyKind::Quantified(MarkApplyQuantifier::Any) => "MarkAnyApply"@,
            MarkApplyKind::Quantified(MarkApplyQuantifier::All) => "MarkAllApply"@,
        }
    }

    /// Shows the operator.
    pub fn to_string(&self) -> (text: String)
        ensures
            text@ == MarkApplyOperator::text(self@.kind),
    {
        match self.kind {
            MarkApplyKind::InnerJoin => "InnerJoinApply".to_string(),
            MarkApplyKind::Exists => "MarkExistsApply".to_string(),
            MarkApplyKind::Quantified(MarkApplyQuantifier::Any) => "MarkAnyApply".to_string(),
            MarkApplyKind::Quantified(MarkApplyQuantifier::All) => "MarkAllApply".to_string(),
        }
    }
}

} // verus!
