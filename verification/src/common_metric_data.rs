//! The metadata every metric carries.

use vstd::prelude::*;
use vstd::string::{StringExecFns, StrSliceExecFns};

use crate::lifetime::Lifetime;

verus! {

/// The description a metric is registered with: its identifier, the pings
/// it is sent in, its lifetime, and whether recording is disabled.
#[derive(Debug)]
pub struct CommonMetricData {
    /// The metric's base identifier, `category.name`.
    pub identifier: String,
    /// The pings this metric is recorded into.
    pub send_in_pings: Vec<String>,
    /// How long recorded values are retained.
    pub lifetime: Lifetime,
    /// Whether recording is disabled for this metric.
    pub disabled: bool,
    /// The label under which a labeled metric records, if any.
    pub dynamic_label: Option<String>,
}

/// The registration facts of a metric's metadata, in one predicate: its
/// identifier, the views of its ping list, its lifetime and disabled flag,
/// with no dynamic label.
pub open spec fn meta_is(
    m: CommonMetricData,
    id: Seq<char>,
    pings: Seq<Seq<char>>,
    lifetime: Lifetime,
    disabled: bool,
) -> bool {
    &&& m.identifier@ == id
    &&& m.send_in_pings@.len() == pings.len()
    &&& forall|i: int| 0 <= i < pings.len() ==> (#[trigger] m.send_in_pings@[i])@ == pings[i]
    &&& m.lifetime == lifetime
    &&& m.disabled == disabled
    &&& m.dynamic_label is None
}

impl CommonMetricData {
    /// The full storage identifier: the base identifier, with `/label`
    /// appended for a labeled metric.
    pub open spec fn identifier_spec(self) -> Seq<char> {
        match self.dynamic_label {
            Some(l) => self.identifier@ + seq!['/'] + l@,
            None => self.identifier@,
        }
    }

    /// The identifier this metric's values are stored under.
    pub fn identifier(&self) -> (r: String)
        ensures
            r@ == self.identifier_spec(),
    {
        match &self.dynamic_label {
            Some(label) => {
                proof {
                    reveal_strlit("/");
                    assert("/"@ =~= seq!['/']);
                }
                let mut full = self.identifier.clone();
                full.append("/");
                full.append(label.as_str());
                full
            },
            None => self.identifier.clone(),
        }
    }

    /// The base identifier, without any label.
    pub fn base_identifier(&self) -> (r: String)
        ensures
            r@ == self.identifier@,
    {
        self.identifier.clone()
    }
}

} // verus!
