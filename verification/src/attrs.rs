//! The rule-level attributes of a problem declaration: which client it
//! targets and whether migration and rollback templates are expected.
//!
//! The attribute values arrive as plain tokens (a quoted literal, a bare
//! boolean, or a bare identifier), already lifted out of the declaration by
//! the build-time front end.

use vstd::prelude::*;

verus! {

/// One attribute value token.
pub enum AttrToken {
    /// A quoted literal, with its quotes already removed.
    Str(String),
    /// A bare `true` or `false`.
    Bool(bool),
    /// A bare identifier.
    Ident(String),
}

/// A validated client choice.  Only the postgres client exists.
pub struct Client {}

/// A validated boolean flag.
pub struct Flag(pub bool);

/// Whether the token names the postgres client.
pub open spec fn client_token_ok(t: AttrToken) -> bool {
    ||| (t matches AttrToken::Str(s) && s@ == "postgres"@)
    ||| (t matches AttrToken::Ident(s) && s@ == "postgres"@)
}

/// The boolean a flag token denotes, if it denotes one.
pub open spec fn flag_of(t: AttrToken) -> Result<bool, ()> {
    match t {
        AttrToken::Str(s) => if s@ == "true"@ {
            Ok(true)
        } else if s@ == "false"@ {
            Ok(false)
        } else {
            Err(())
        },
        AttrToken::Bool(b) => Ok(b),
        AttrToken::Ident(_) => Err(()),
    }
}

/// Whether two strings hold the same characters.
pub fn str_eq(a: &str, b: &str) -> (r: bool)
    ensures
        r == (a@ == b@),
{
    let al = a.unicode_len();
    let bl = b.unicode_len();
    if al != bl {
        proof {
            assert(a@ != b@);
        }
        return false;
    }
    let mut i: usize = 0;
    while i < al
        invariant
            al == a@.len(),
            bl == b@.len(),
            al == bl,
            i <= al,
            forall|j: int| 0 <= j < i ==> a@[j] == b@[j],
        decreases al - i,
    {
        if a.get_char(i) != b.get_char(i) {
            proof {
                assert(a@[i as int] != b@[i as int]);
            }
            return false;
        }
        i += 1;
    }
    proof {
        assert(a@ =~= b@);
    }
    true
}

impl Default for Client {
    /// The default client is postgres.
    fn default() -> (r: Self)
        ensures
            r == (Client {  }),
    {
        Client {  }
    }
}

impl Client {
    /// The name of the client type this choice stands for.
    pub fn name(&self) -> (r: &'static str)
        ensures
            r@ == "PostgresClient"@,
    {
        "PostgresClient"
    }

    /// Validate a client attribute token: only `postgres` is known.
    pub fn parse(t: &AttrToken) -> (r: Result<Client, String>)
        ensures
            r is Ok <==> client_token_ok(*t),
    {
        match t {
            AttrToken::Str(s) => {
                if str_eq(s.as_str(), "postgres") {
                    Ok(Client {  })
                } else {
                    Err("Unknown client".to_owned())
                }
            },
            AttrToken::Ident(s) => {
                if str_eq(s.as_str(), "postgres") {
                    Ok(Client {  })
                } else {
                    Err("Unknown client".to_owned())
                }
            },
            AttrToken::Bool(_) => Err("Unknown client".to_owned()),
        }
    }
}

impl Default for Flag {
    /// Flags default to on.
    fn default() -> (r: Self)
        ensures
            r.0 == true,
    {
        Flag(true)
    }
}

impl Flag {
    /// The boolean this flag holds.
    pub fn value(&self) -> (r: bool)
        ensures
            r == self.0,
    {
        self.0
    }

    /// Validate a boolean flag token: a bare boolean, or the quoted text
    /// `"true"` or `"false"`.
    pub fn parse(t: &AttrToken) -> (r: Result<Flag, String>)
        ensures
            r matches Ok(f) ==> flag_of(*t) == Ok::<bool, ()>(f.0),
            r is Err <==> flag_of(*t) is Err,
    {
        match t {
            AttrToken::Str(s) => {
                if str_eq(s.as_str(), "true") {
                    Ok(Flag(true))
                } else if str_eq(s.as_str(), "false") {
                    Ok(Flag(false))
                } else {
                    Err("Boolean flag expected".to_owned())
                }
            },
            AttrToken::Bool(b) => Ok(Flag(*b)),
            AttrToken::Ident(_) => Err("Boolean flag expected".to_owned()),
        }
    }
}

/// The parsed `client` / `migration` / `rollback` attributes of one rule.
pub struct Attrs {
    client: Client,
    migration: Flag,
    rollback: Flag,
}

/// Fold the attribute entries left to right over the running flag values.
/// An unknown key, an unknown client and a malformed flag are all fatal.
pub open spec fn attrs_fold(entries: Seq<(String, AttrToken)>, m: bool, r: bool) -> Result<
    (bool, bool),
    (),
>
    decreases entries.len(),
{
    if entries.len() == 0 {
        Ok((m, r))
    } else {
        let (k, t) = entries.first();
        if k@ == "client"@ {
            if client_token_ok(t) {
                attrs_fold(entries.drop_first(), m, r)
            } else {
                Err(())
            }
        } else if k@ == "migration"@ {
            match flag_of(t) {
                Ok(b) => attrs_fold(entries.drop_first(), b, r),
                Err(_) => Err(()),
            }
        } else if k@ == "rollback"@ {
            match flag_of(t) {
                Ok(b) => attrs_fold(entries.drop_first(), m, b),
                Err(_) => Err(()),
            }
        } else {
            Err(())
        }
    }
}

/// What parsing the whole entry list yields: the final migration flag, and
/// the rollback flag gated on the migration flag.
pub open spec fn attrs_result(entries: Seq<(String, AttrToken)>) -> Result<(bool, bool), ()> {
    match attrs_fold(entries, true, true) {
        Ok((m, r)) => Ok((m, r && m)),
        Err(_) => Err(()),
    }
}

impl Attrs {
    /// The migration flag the attributes carry.
    pub closed spec fn spec_migration(self) -> bool {
        self.migration.0
    }

    /// The rollback flag the attributes carry (gated on the migration flag
    /// by `parse`).
    pub closed spec fn spec_rollback(self) -> bool {
        self.rollback.0
    }

    /// Parse attribute entries of the form `key = value`.  Defaults: the
    /// postgres client, migration and rollback both enabled; a rollback
    /// without a migration is switched off.
    pub fn parse(entries: &Vec<(String, AttrToken)>) -> (r: Result<Attrs, String>)
        ensures
            r matches Ok(a) ==> attrs_result(entries@) == Ok::<(bool, bool), ()>(
                (a.spec_migration(), a.spec_rollback()),
            ),
            r is Err <==> attrs_result(entries@) is Err,
    {
        let mut migration = Flag::default();
        let mut rollback = Flag::default();
        let n = entries.len();
        let mut i: usize = 0;
        proof {
            assert(entries@.skip(0) =~= entries@);
        }
        while i < n
            invariant
                n == entries@.len(),
                i <= n,
                attrs_fold(entries@.skip(i as int), migration.0, rollback.0) == attrs_fold(
                    entries@,
                    true,
                    true,
                ),
            decreases n - i,
        {
            proof {
                assert(entries@.skip(i as int).first() == entries@[i as int]);
                assert(entries@.skip(i as int).drop_first() =~= entries@.skip(i as int + 1));
            }
            let (k, t) = &entries[i];
            if str_eq(k.as_str(), "client") {
                match Client::parse(t) {
                    Ok(_) => {},
                    Err(e) => {
                        return Err(e);
                    },
                }
            } else if str_eq(k.as_str(), "migration") {
                match Flag::parse(t) {
                    Ok(f) => {
                        migration = f;
                    },
                    Err(e) => {
                        return Err(e);
                    },
                }
            } else if str_eq(k.as_str(), "rollback") {
                match Flag::parse(t) {
                    Ok(f) => {
                        rollback = f;
                    },
                    Err(e) => {
                        return Err(e);
                    },
                }
            } else {
                return Err("Unknown attribute".to_owned());
            }
            i += 1;
        }
        proof {
            assert(entries@.skip(n as int) =~= Seq::<(String, AttrToken)>::empty());
        }
        let gated = Flag(rollback.value() && migration.value());
        Ok(Attrs { client: Client::default(), migration, rollback: gated })
    }

    /// The name of the client type the rule targets.
    pub fn client(&self) -> (r: &'static str)
        ensures
            r@ == "PostgresClient"@,
    {
        self.client.name()
    }

    /// Whether a migration template is expected.
    pub fn migration(&self) -> (r: bool)
        ensures
            r == self.spec_migration(),
    {
        self.migration.value()
    }

    /// Whether a rollback template is expected (never without a migration).
    pub fn rollback(&self) -> (r: bool)
        ensures
            r == self.spec_rollback(),
    {
        self.rollback.value()
    }
}

} // verus!
