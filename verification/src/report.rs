//! The report of an analysis: violated regulations, evaluated attack trees,
//! unmet requirements and extra data.
use vstd::prelude::*;
use crate::query::{AttackTree, QueryResultsMap};
use crate::string_map::KeyMap;

verus! {

/// The report of an analysis.
#[derive(Debug)]
pub struct Report {
    violations: KeyMap<QueryResultsMap>,
    attack_trees: Vec<AttackTree>,
    unmet_requirements: Vec<String>,
    extra_data: KeyMap<QueryResultsMap>,
}

impl Report {
    /// The results of each regulation query.
    pub closed spec fn violations_view(&self) -> Map<Seq<char>, Seq<Vec<(String, String)>>> {
        self.violations@
    }

    /// The evaluated attack trees, in order.
    pub closed spec fn attack_trees_view(&self) -> Seq<AttackTree> {
        self.attack_trees@
    }

    /// The requirement queries that found nothing, in order.
    pub closed spec fn unmet_view(&self) -> Seq<String> {
        self.unmet_requirements@
    }

    /// The results of each extra-data query.
    pub closed spec fn extra_data_view(&self) -> Map<Seq<char>, Seq<Vec<(String, String)>>> {
        self.extra_data@
    }

    /// An empty report.
    pub fn new() -> (r: Self)
        ensures
            r.violations_view() == Map::<Seq<char>, Seq<Vec<(String, String)>>>::empty(),
            r.attack_trees_view().len() == 0,
            r.unmet_view().len() == 0,
            r.extra_data_view() == Map::<Seq<char>, Seq<Vec<(String, String)>>>::empty(),
    {
        Report {
            violations: KeyMap::new(),
            attack_trees: Vec::new(),
            unmet_requirements: Vec::new(),
            extra_data: KeyMap::new(),
        }
    }

    /// Records the results of a regulation query, in place of earlier ones.
    pub fn add_violations(&mut self, rule: String, violations: QueryResultsMap)
        ensures
            final(self).violations_view() == old(self).violations_view().insert(rule@, violations@),
            final(self).attack_trees_view() == old(self).attack_trees_view(),
            final(self).unmet_view() == old(self).unmet_view(),
            final(self).extra_data_view() == old(self).extra_data_view(),
    {
        self.violations.insert(rule, violations);
    }

    /// Appends evaluated attack trees.
    pub fn add_attack_trees(&mut self, attack_trees: Vec<AttackTree>)
        ensures
            final(self).attack_trees_view() == old(self).attack_trees_view() + attack_trees@,
            final(self).violations_view() == old(self).violations_view(),
            final(self).unmet_view() == old(self).unmet_view(),
            final(self).extra_data_view() == old(self).extra_data_view(),
    {
        let mut trees = attack_trees;
        self.attack_trees.append(&mut trees);
    }

    /// Appends one evaluated attack tree.
    pub fn add_attack_tree(&mut self, attack_tree: AttackTree)
        ensures
            final(self).attack_trees_view() == old(self).attack_trees_view().push(attack_tree),
            final(self).violations_view() == old(self).violations_view(),
            final(self).unmet_view() == old(self).unmet_view(),
            final(self).extra_data_view() == old(self).extra_data_view(),
    {
        self.attack_trees.push(attack_tree);
    }

    /// Appends a requirement query that found nothing.
    pub fn add_unmet_requirement(&mut self, requirement: String)
        ensures
            final(self).unmet_view() == old(self).unmet_view().push(requirement),
            final(self).violations_view() == old(self).violations_view(),
            final(self).attack_trees_view() == old(self).attack_trees_view(),
            final(self).extra_data_view() == old(self).extra_data_view(),
    {
        self.unmet_requirements.push(requirement);
    }

    /// Records the results of an extra-data query, in place of earlier ones.
    pub fn add_extra_data(&mut self, rule: String, data: QueryResultsMap)
        ensures
            final(self).extra_data_view() == old(self).extra_data_view().insert(rule@, data@),
            final(self).violations_view() == old(self).violations_view(),
            final(self).attack_trees_view() == old(self).attack_trees_view(),
            final(self).unmet_view() == old(self).unmet_view(),
    {
        self.extra_data.insert(rule, data);
    }

    /// The results of each regulation query.
    pub fn violations(&self) -> (r: &KeyMap<QueryResultsMap>)
        ensures
            r@ == self.violations_view(),
    {
        &self.violations
    }

    /// The evaluated attack trees.
    pub fn attack_trees(&self) -> (r: &Vec<AttackTree>)
        ensures
            r@ == self.attack_trees_view(),
    {
        &self.attack_trees
    }

    /// The requirement queries that found nothing.
    pub fn unmet_requirements(&self) -> (r: &Vec<String>)
        ensures
            r@ == self.unmet_view(),
    {
        &self.unmet_requirements
    }

    /// The results of each extra-data query.
    pub fn extra_data(&self) -> (r: &KeyMap<QueryResultsMap>)
        ensures
            r@ == self.extra_data_view(),
    {
        &self.extra_data
    }
}

impl Default for Report {
    /// An empty report.
    fn default() -> (r: Self)
        ensures
            r.violations_view() == Map::<Seq<char>, Seq<Vec<(String, String)>>>::empty(),
            r.attack_trees_view().len() == 0,
            r.unmet_view().len() == 0,
            r.extra_data_view() == Map::<Seq<char>, Seq<Vec<(String, String)>>>::empty(),
    {
        Report::new()
    }
}

} // verus!
