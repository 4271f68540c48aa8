//! The static description of one rule: its templates and its field
//! metadata.  Definitions are produced once, at startup, and are read-only
//! for the rest of the process.

use vstd::prelude::*;

verus! {

/// One squash step folded over the text: whitespace is never emitted
/// directly; the first non-whitespace character after a run of whitespace
/// gets a single space before it, unless nothing has been emitted yet.
pub open spec fn squash_fold(s: Seq<char>, acc: Seq<char>, pending_space: bool) -> Seq<char>
    decreases s.len(),
{
    if s.len() == 0 {
        acc
    } else {
        let c = s.first();
        if crate::inspector::is_space(c) {
            squash_fold(s.drop_first(), acc, true)
        } else if pending_space && acc.len() > 0 {
            squash_fold(s.drop_first(), acc + seq![' '] + seq![c], false)
        } else {
            squash_fold(s.drop_first(), acc + seq![c], false)
        }
    }
}

/// The text with surrounding whitespace removed and every inner whitespace
/// run collapsed to a single space.
pub open spec fn squashed(s: Seq<char>) -> Seq<char> {
    squash_fold(s, Seq::empty(), false)
}

/// Normalize a template text to one line: trim it and collapse every run
/// of whitespace to a single space.
pub fn squash_whitespace(s: &str) -> (r: String)
    ensures
        r@ == squashed(s@),
{
    let mut out = String::new();
    let mut pending = false;
    let n = s.unicode_len();
    let mut i: usize = 0;
    proof {
        assert(s@.skip(0) =~= s@);
    }
    while i < n
        invariant
            n == s@.len(),
            i <= n,
            squash_fold(s@.skip(i as int), out@, pending) == squashed(s@),
        decreases n - i,
    {
        proof {
            assert(s@.skip(i as int).first() == s@[i as int]);
            assert(s@.skip(i as int).drop_first() =~= s@.skip(i as int + 1));
        }
        let c = s.get_char(i);
        if c == ' ' || c == '\t' || c == '\n' || c == '\r' || c == '\u{b}' || c == '\u{c}' {
            pending = true;
        } else {
            let ghost out0 = out@;
            let cs = crate::filter::char_to_string(c);
            if pending && !out.as_str().is_empty() {
                out.append(" ");
                out.append(cs.as_str());
                proof {
                    reveal_strlit(" ");
                    assert(out@ =~= out0 + seq![' '] + seq![s@[i as int]]);
                }
            } else {
                out.append(cs.as_str());
                proof {
                    assert(out@ =~= out0 + seq![s@[i as int]]);
                }
            }
            pending = false;
        }
        proof {
            assert(crate::inspector::is_space(s@[i as int]) == (s@[i as int] == ' ' || s@[i
                as int] == '\t' || s@[i as int] == '\n' || s@[i as int] == '\r' || s@[i as int]
                == '\u{b}' || s@[i as int] == '\u{c}'));
        }
        i += 1;
    }
    proof {
        assert(s@.skip(n as int) =~= Seq::<char>::empty());
    }
    out
}

/// One field of a rule's backing structure.
pub struct Field {
    pub name: String,
    pub ty: String,
}

/// A field that carries a configuration role and a description: a `limit`
/// (scalar bound) or a `filter` (match candidate).
pub struct TaggedField {
    pub name: String,
    pub ty: String,
    pub desc: String,
}

/// The full description of one rule kind.
///
/// `rollback` is only meaningful when `migration` is present; the assembly
/// function keeps that invariant.
pub struct Definition {
    pub client: String,
    pub fields: Vec<Field>,
    pub filters: Vec<TaggedField>,
    pub limits: Vec<TaggedField>,
    pub message: String,
    pub migration: Option<String>,
    pub name: String,
    pub query: String,
    pub rollback: Option<String>,
}

impl Definition {
    /// A rollback template never stands without a migration template.
    pub open spec fn wf(self) -> bool {
        self.rollback is Some ==> self.migration is Some
    }

    /// Assemble a definition from parsed attributes, a parsed item, and the
    /// template texts.  The migration flag decides whether the migration
    /// template is kept, and the rollback flag (already gated on the
    /// migration flag) does the same for the rollback template.
    pub fn assemble(
        attrs: &crate::attrs::Attrs,
        item: &crate::field::Item,
        message: String,
        query: String,
        migration: String,
        rollback: String,
    ) -> (r: Definition)
        ensures
            r.client@ == "PostgresClient"@,
            r.name == item.name,
            r.message == message,
            r.query == query,
            r.migration == if attrs.spec_migration() {
                Some(migration)
            } else {
                None::<String>
            },
            r.rollback == if attrs.spec_migration() && attrs.spec_rollback() {
                Some(rollback)
            } else {
                None::<String>
            },
            r.fields@ == crate::field::plain_fields(item.fields@),
            r.filters@ == crate::field::filter_fields(item.fields@),
            r.limits@ == crate::field::limit_fields(item.fields@),
            r.wf(),
    {
        let mig: Option<String> = if attrs.migration() {
            Some(migration)
        } else {
            None
        };
        let rb: Option<String> = if attrs.migration() && attrs.rollback() {
            Some(rollback)
        } else {
            None
        };
        Definition {
            client: attrs.client().to_owned(),
            fields: item.fields(),
            filters: item.filters(),
            limits: item.limits(),
            message,
            migration: mig,
            name: item.name.clone(),
            query,
            rollback: rb,
        }
    }
}

} // verus!
