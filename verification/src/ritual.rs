//! The ritual record.

use vstd::prelude::*;
use crate::text::texts;
use crate::text_map::TextMap;

verus! {

/// One catalog record describing an organizational practice.
#[derive(Debug, PartialEq, Eq)]
pub struct Ritual {
    /// The key under which the catalog holds the record.
    pub id: String,
    pub name: String,
    pub origin_culture: String,
    pub category: String,
    pub bug_fixed: String,
    pub mechanism: String,
    /// The steps of the practice, each under a name that varies from record
    /// to record.
    pub modern_script: TextMap,
    pub ethical_guardrails: Vec<String>,
}

/// What a `Ritual` holds.
pub struct RitualView {
    pub id: Seq<char>,
    pub name: Seq<char>,
    pub origin_culture: Seq<char>,
    pub category: Seq<char>,
    pub bug_fixed: Seq<char>,
    pub mechanism: Seq<char>,
    pub modern_script: Seq<(Seq<char>, Seq<char>)>,
    pub ethical_guardrails: Seq<Seq<char>>,
}

impl View for Ritual {
    type V = RitualView;

    open spec fn view(&self) -> RitualView {
        RitualView {
            id: self.id@,
            name: self.name@,
            origin_culture: self.origin_culture@,
            category: self.category@,
            bug_fixed: self.bug_fixed@,
            mechanism: self.mechanism@,
            modern_script: self.modern_script@,
            ethical_guardrails: texts(self.ethical_guardrails@),
        }
    }
}

/// The views of a sequence of records.
pub open spec fn records(rituals: Seq<Ritual>) -> Seq<RitualView> {
    rituals.map_values(|r: Ritual| r@)
}

/// A copy of a list of strings.
pub fn copy_texts(items: &Vec<String>) -> (copy: Vec<String>)
    ensures
        texts(copy@) == texts(items@),
{
    let mut copy: Vec<String> = Vec::new();
    let mut i: usize = 0;
    while i < items.len()
        invariant
            i <= items.len(),
            copy@.len() == i,
            forall|j: int| 0 <= j < i ==> copy@[j]@ == (#[trigger] items@[j])@,
        decreases items.len() - i,
    {
        copy.push(items[i].clone());
        i += 1;
    }
    assert(texts(copy@) =~= texts(items@));
    copy
}

impl Clone for Ritual {
    fn clone(&self) -> (copy: Ritual)
        ensures
            copy@ == self@,
    {
        Ritual {
            id: self.id.clone(),
            name: self.name.clone(),
            origin_culture: self.origin_culture.clone(),
            category: self.category.clone(),
            bug_fixed: self.bug_fixed.clone(),
            mechanism: self.mechanism.clone(),
            modern_script: self.modern_script.clone(),
            ethical_guardrails: copy_texts(&self.ethical_guardrails),
        }
    }
}

} // verus!
