//! A problem is one detected schema or data issue: a kind, a rendered
//! message, and optionally the rendered migration that would fix it and the
//! rendered rollback of that migration.

use crate::definition::Definition;
use crate::error::Error;
use vstd::prelude::*;

verus! {

/// The text of an optional rendered artifact; absent means the empty text.
pub open spec fn opt_text(o: Option<String>) -> Seq<char> {
    match o {
        Some(s) => s@,
        None => Seq::<char>::empty(),
    }
}

/// One reportable finding.
///
/// A rollback is only meaningful in the presence of a migration: the
/// constructor drops a rollback that comes without one, and the accessor
/// never hands one out without one.
#[derive(Debug)]
pub struct Problem {
    pub kind: String,
    pub message: String,
    pub migration: Option<String>,
    pub rollback: Option<String>,
}

impl Problem {
    /// Rollback text never stands without a migration.
    pub open spec fn wf(self) -> bool {
        self.rollback is Some ==> self.migration is Some
    }

    /// The identity under which problems are ordered and deduplicated: the
    /// kind, the message, then the migration text twice.  The rollback never
    /// contributes to identity.
    #[verifier::opaque]
    pub open spec fn spec_id(self) -> Seq<char> {
        self.kind@ + self.message@ + opt_text(self.migration) + opt_text(self.migration)
    }

    /// Build a problem from rendered texts.  A rollback given without a
    /// migration is dropped: there would be nothing to roll back.
    pub fn new(
        kind: String,
        message: String,
        migration: Option<String>,
        rollback: Option<String>,
    ) -> (r: Problem)
        ensures
            r.kind == kind,
            r.message == message,
            r.migration == migration,
            r.rollback == if migration is Some {
                rollback
            } else {
                None::<String>
            },
            r.wf(),
    {
        let rb = if migration.is_some() {
            rollback
        } else {
            None
        };
        Problem { kind, message, migration, rollback: rb }
    }

    /// The kind of the problem.
    pub fn kind(&self) -> (r: &str)
        ensures
            r@ == self.kind@,
    {
        self.kind.as_str()
    }

    /// The message describing the problem.
    pub fn message(&self) -> (r: Result<String, Error>)
        ensures
            r matches Ok(m) && m@ == self.message@,
    {
        Ok(self.message.clone())
    }

    /// The migration fixing the problem, when the definition has one.
    pub fn migration(&self) -> (r: Option<Result<String, Error>>)
        ensures
            r is Some <==> self.migration is Some,
            r matches Some(res) ==> res matches Ok(m) && m@ == self.migration->0@,
    {
        match &self.migration {
            Some(m) => Some(Ok(m.clone())),
            None => None,
        }
    }

    /// The rollback of the migration.  Without a migration there is nothing
    /// to roll back, so no rollback is handed out then.
    pub fn rollback(&self) -> (r: Option<Result<String, Error>>)
        ensures
            r is Some <==> (self.migration is Some && self.rollback is Some),
            r matches Some(res) ==> res matches Ok(m) && m@ == self.rollback->0@,
    {
        if self.migration.is_some() {
            match &self.rollback {
                Some(rb) => Some(Ok(rb.clone())),
                None => None,
            }
        } else {
            None
        }
    }

    /// Render a problem from its definition's templates and the field
    /// values of one result row.
    ///
    /// The message is rendered first, then the migration when the
    /// definition has one, then the rollback when the definition has both a
    /// migration and a rollback; the first template failure aborts, tagged
    /// with the name of the artifact whose template failed.  A definition
    /// without a migration yields a problem without a migration and
    /// therefore without a rollback, whatever rollback template the
    /// definition carries.
    pub fn render(def: &Definition, vars: &Vec<(String, String)>) -> (r: Result<Problem, Error>)
        ensures
            r matches Ok(p) ==> {
                &&& p.wf()
                &&& p.kind == def.name
                &&& (p.migration is Some <==> def.migration is Some)
                &&& (p.rollback is Some <==> (def.migration is Some && def.rollback is Some))
            },
            r matches Err(e) ==> {
                &&& e matches Error::Template(t, _)
                &&& (t@ == "message"@ || t@ == "migration"@ || t@ == "rollback"@)
                &&& (t@ == "migration"@ ==> def.migration is Some)
                &&& (t@ == "rollback"@ ==> def.migration is Some && def.rollback is Some)
            },
    {
        proof {
            reveal_strlit("message");
            reveal_strlit("migration");
            reveal_strlit("rollback");
            assert(("message")@ != ("migration")@ && ("message")@ != ("rollback")@ && (
            "migration")@ != ("rollback")@) by {
                assert(("message")@.len() == 7);
                assert(("migration")@.len() == 9);
                assert(("rollback")@.len() == 8);
            }
        }
        let message = match crate::render::render_template(def.message.as_str(), vars) {
            Ok(m) => m,
            Err(e) => {
                return Err(Error::Template("message".to_owned(), e));
            },
        };
        let migration: Option<String> = match &def.migration {
            None => None,
            Some(t) => match crate::render::render_template(t.as_str(), vars) {
                Ok(m) => Some(m),
                Err(e) => {
                    return Err(Error::Template("migration".to_owned(), e));
                },
            },
        };
        let rollback: Option<String> = if migration.is_some() {
            match &def.rollback {
                None => None,
                Some(t) => match crate::render::render_template(t.as_str(), vars) {
                    Ok(m) => Some(m),
                    Err(e) => {
                        return Err(Error::Template("rollback".to_owned(), e));
                    },
                },
            }
        } else {
            None
        };
        Ok(Problem::new(def.name.clone(), message, migration, rollback))
    }

    /// The identity string used for ordering and deduplication.
    pub fn id(&self) -> (r: Result<String, Error>)
        ensures
            r matches Ok(s) && s@ == self.spec_id(),
    {
        proof {
            reveal(Problem::spec_id);
        }
        let mut out = self.kind.clone();
        out.append(self.message.as_str());
        match &self.migration {
            Some(m) => {
                out.append(m.as_str());
                out.append(m.as_str());
            },
            None => {},
        }
        proof {
            assert(out@ =~= self.spec_id());
        }
        Ok(out)
    }
}

} // verus!
