//! The run loop: one configuration, one client, one report.
//!
//! Rules are processed strictly sequentially, in the order the
//! configuration lists them; one query is in flight at a time; the first
//! failure anywhere aborts the whole run with no partial report.

use crate::client::{Client, TryFromRow};
use crate::error::Error;
use crate::filter::WhereClause;
use crate::problem::Problem;
use crate::registry::{has_def, Registry};
use crate::report::Report;
use vstd::prelude::*;

verus! {

/// The bound configuration of one rule: its scalar template variables and
/// its compiled-to-be filter clause.
pub struct RuleConfig {
    pub vars: Vec<(String, String)>,
    pub clause: WhereClause,
}

/// Run every configured rule against the client and collect the findings.
///
/// For each entry, the rule's definition is resolved in the registry (an
/// unknown kind aborts with a configuration error naming it), its query is
/// built and executed, and every returned row is rendered into a problem.
/// The first error anywhere ends the run; no partial report is returned.
/// The client and the engine decide most outcomes, so the contract states
/// what is owed regardless: an empty configuration succeeds with an empty
/// report, an unregistered first kind is rejected by the library itself
/// with the configuration error naming it, and every collected problem is
/// well-formed.
pub fn run<C: Client>(
    registry: &Registry,
    config: &Vec<(String, RuleConfig)>,
    client: &mut C,
) -> (r: Result<Report, Error>) where Vec<(String, String)>: TryFromRow<<C as Client>::Row>
    ensures
        config@.len() == 0 ==> (r matches Ok(rep) && rep@.len() == 0),
        (config@.len() > 0 && !has_def(registry.defs@, config@[0].0@)) ==> (r matches Err(e)
            && e matches Error::ParseConfig(m) && m@ == "unknown rule kind "@ + config@[0].0@),
        r matches Ok(rep) ==> forall|i: int| 0 <= i < rep@.len() ==> (#[trigger] rep@[i]).wf(),
{
    let mut report = Report::default();
    let n = config.len();
    let mut i: usize = 0;
    while i < n
        invariant
            n == config@.len(),
            i <= n,
            i == 0 ==> report@.len() == 0,
            i > 0 ==> has_def(registry.defs@, config@[0].0@),
            forall|k: int| 0 <= k < report@.len() ==> (#[trigger] report@[k]).wf(),
        decreases n - i,
    {
        let (kind, rc) = &config[i];
        let def = match registry.lookup(kind.as_str()) {
            Some(d) => d,
            None => {
                let mut msg = "unknown rule kind ".to_owned();
                msg.append(kind.as_str());
                proof {
                    if i == 0 {
                        assert(msg@ =~= "unknown rule kind "@ + config@[0].0@);
                    }
                }
                return Err(Error::ParseConfig(msg));
            },
        };
        proof {
            assert(has_def(registry.defs@, config@[0].0@)) by {
                if i == 0 {
                    assert(config@[0].0@ == kind@);
                }
            }
        }
        let query = match crate::inspector::build_query(def, &rc.vars, &rc.clause) {
            Ok(q) => q,
            Err(e) => {
                return Err(e);
            },
        };
        let mut rows = match client.query(query.as_str()) {
            Ok(r) => r,
            Err(e) => {
                return Err(Error::ExecuteQuery(e));
            },
        };
        let m = rows.len();
        let mut j: usize = 0;
        while j < m
            invariant
                j <= m,
                rows@.len() == m - j,
                n == config@.len(),
                n > 0,
                has_def(registry.defs@, config@[0].0@),
                forall|k: int| 0 <= k < report@.len() ==> (#[trigger] report@[k]).wf(),
            decreases m - j,
        {
            let row = rows.remove(0);
            let fields = match <Vec<(String, String)> as TryFromRow<
                <C as Client>::Row,
            >>::try_from_row(row) {
                Ok(f) => f,
                Err(e) => {
                    return Err(Error::ParseRow(e));
                },
            };
            let problem = match Problem::render(def, &fields) {
                Ok(p) => p,
                Err(e) => {
                    return Err(e);
                },
            };
            report.insert(problem);
            j += 1;
        }
        i += 1;
    }
    Ok(report)
}

} // verus!
