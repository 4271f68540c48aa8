//! From a rule's detection-query template to the final SQL statement: the
//! template is normalized to one compact line, rendered, extended with the
//! compiled `WHERE` clause, and terminated with `;`.

use crate::error::Error;
use crate::filter::{error_kind, seq_contains_char, where_sql, ErrorKind, WhereClause};
use crate::problem::Problem;
use vstd::prelude::*;

verus! {

/// An inspector turns one rule's bound configuration into an executable
/// detection query and its result rows into problems.
pub trait Inspector: Sized {
    type Row;

    /// Bind the rule's configuration text to a new inspector.
    fn build(key: &str, value: &str) -> Result<Self, Error>;

    /// The SQL statement that detects this rule's problems.
    fn query(&self) -> Result<String, Error>;

    /// Convert one result row into a problem.
    fn parse(&self, row: Self::Row) -> Result<Problem, Error>;
}

/// The whitespace characters recognized by the normalization step.
pub open spec fn is_space(c: char) -> bool {
    c == ' ' || c == '\t' || c == '\n' || c == '\r' || c == '\u{b}' || c == '\u{c}'
}

/// A collapse site: a whitespace character followed by a newline.
pub open spec fn collapse_at(s: Seq<char>, i: int) -> bool {
    0 <= i && i + 1 < s.len() && is_space(s[i]) && s[i + 1] == '\n'
}

pub open spec fn has_collapse(s: Seq<char>) -> bool {
    exists|i: int| collapse_at(s, i)
}

pub open spec fn is_first_collapse(s: Seq<char>, i: int) -> bool {
    collapse_at(s, i) && (forall|k: int| 0 <= k < i ==> !collapse_at(s, k))
}

pub open spec fn first_collapse(s: Seq<char>) -> int {
    choose|i: int| is_first_collapse(s, i)
}

/// The end of the newline run that a collapse site opens: every character
/// from `i + 1` up to `j` is a newline, and `j` is the first that is not.
pub open spec fn is_newline_end(s: Seq<char>, i: int, j: int) -> bool {
    &&& i + 2 <= j <= s.len()
    &&& (forall|k: int| i + 1 <= k < j ==> s[k] == '\n')
    &&& (j == s.len() || s[j] != '\n')
}

pub open spec fn newline_end(s: Seq<char>, i: int) -> int {
    choose|j: int| is_newline_end(s, i, j)
}

/// One collapse step: the first whitespace-then-newlines run, if any, is
/// replaced with a single space.
pub open spec fn collapsed(s: Seq<char>) -> Seq<char> {
    if has_collapse(s) {
        s.take(first_collapse(s)) + seq![' '] + s.skip(newline_end(s, first_collapse(s)))
    } else {
        s
    }
}

proof fn lemma_first_collapse_unique(s: Seq<char>, a: int, b: int)
    requires
        is_first_collapse(s, a),
        is_first_collapse(s, b),
    ensures
        a == b,
{
}

proof fn lemma_newline_end_unique(s: Seq<char>, i: int, a: int, b: int)
    requires
        is_newline_end(s, i, a),
        is_newline_end(s, i, b),
    ensures
        a == b,
{
    if a < b {
        assert(s[a] == '\n');
    } else if b < a {
        assert(s[b] == '\n');
    }
}

fn char_is_space(c: char) -> (r: bool)
    ensures
        r == is_space(c),
{
    c == ' ' || c == '\t' || c == '\n' || c == '\r' || c == '\u{b}' || c == '\u{c}'
}

/// Replace the first run of a whitespace character followed by newlines
/// with a single space.
pub fn collapse_query(s: &str) -> (r: String)
    ensures
        r@ == collapsed(s@),
{
    let n = s.unicode_len();
    if n < 2 {
        proof {
            assert(!has_collapse(s@));
        }
        return s.to_owned();
    }
    let mut i: usize = 0;
    while i < n - 1
        invariant
            n == s@.len(),
            n >= 2,
            i <= n - 1,
            forall|k: int| 0 <= k < i ==> !collapse_at(s@, k),
        decreases n - i,
    {
        if char_is_space(s.get_char(i)) && s.get_char(i + 1) == '\n' {
            assert(collapse_at(s@, i as int));
            let mut j: usize = i + 2;
            while j < n && s.get_char(j) == '\n'
                invariant
                    n == s@.len(),
                    i + 2 <= j <= n,
                    forall|k: int| i + 1 <= k < j ==> s@[k] == '\n',
                decreases n - j,
            {
                j += 1;
            }
            proof {
                assert(is_newline_end(s@, i as int, j as int));
                assert(is_first_collapse(s@, i as int));
                lemma_first_collapse_unique(s@, first_collapse(s@), i as int);
                lemma_newline_end_unique(s@, i as int, newline_end(s@, i as int), j as int);
            }
            let mut out = s.substring_char(0, i).to_owned();
            out.append(" ");
            out.append(s.substring_char(j, n));
            proof {
                reveal_strlit(" ");
                assert(out@ =~= collapsed(s@));
            }
            return out;
        }
        i += 1;
    }
    proof {
        assert(!has_collapse(s@));
    }
    s.to_owned()
}

/// A strip site: only spaces from `i` up to the end of their run, which
/// reaches the end of the text or a semicolon with no later newline.  The
/// text from such a site to the end is removed.
pub open spec fn is_space_run_end(s: Seq<char>, i: int, m: int) -> bool {
    &&& i <= m <= s.len()
    &&& (forall|k: int| i <= k < m ==> s[k] == ' ')
    &&& (m == s.len() || s[m] != ' ')
}

pub open spec fn strip_at(s: Seq<char>, i: int) -> bool {
    &&& 0 <= i <= s.len()
    &&& exists|m: int|
        #[trigger] is_space_run_end(s, i, m) && (m == s.len() || (s[m] == ';'
            && !seq_contains_char(s.skip(m), '\n')))
}

pub open spec fn is_first_strip(s: Seq<char>, i: int) -> bool {
    strip_at(s, i) && (forall|k: int| 0 <= k < i ==> !strip_at(s, k))
}

pub open spec fn first_strip(s: Seq<char>) -> int {
    choose|i: int| is_first_strip(s, i)
}

/// One strip step: a single leading space is removed when there is one;
/// otherwise the text is cut at the first strip site (trailing spaces, or a
/// final semicolon fragment with no newline after it).
pub open spec fn stripped(s: Seq<char>) -> Seq<char> {
    if s.len() > 0 && s[0] == ' ' {
        s.drop_first()
    } else {
        s.take(first_strip(s))
    }
}

proof fn lemma_first_strip_unique(s: Seq<char>, a: int, b: int)
    requires
        is_first_strip(s, a),
        is_first_strip(s, b),
    ensures
        a == b,
{
}

fn space_run_end(s: &str, i: usize, n: usize) -> (m: usize)
    requires
        n == s@.len(),
        i <= n,
    ensures
        is_space_run_end(s@, i as int, m as int),
{
    let mut m: usize = i;
    while m < n && s.get_char(m) == ' '
        invariant
            n == s@.len(),
            i <= m <= n,
            forall|k: int| i <= k < m ==> s@[k] == ' ',
        decreases n - m,
    {
        m += 1;
    }
    m
}

fn contains_newline_from(s: &str, m: usize, n: usize) -> (r: bool)
    requires
        n == s@.len(),
        m <= n,
    ensures
        r == seq_contains_char(s@.skip(m as int), '\n'),
{
    let mut k: usize = m;
    while k < n
        invariant
            n == s@.len(),
            m <= k <= n,
            forall|j: int| m <= j < k ==> s@[j] != '\n',
        decreases n - k,
    {
        if s.get_char(k) == '\n' {
            proof {
                assert(s@.skip(m as int)[k - m] == '\n');
            }
            return true;
        }
        k += 1;
    }
    proof {
        assert forall|j: int| 0 <= j < s@.skip(m as int).len() implies s@.skip(m as int)[j]
            != '\n' by {
            assert(s@.skip(m as int)[j] == s@[m + j]);
        }
    }
    false
}

fn strip_match_at(s: &str, i: usize, n: usize) -> (r: bool)
    requires
        n == s@.len(),
        i <= n,
    ensures
        r == strip_at(s@, i as int),
{
    let m = space_run_end(s, i, n);
    if m == n {
        proof {
            assert(is_space_run_end(s@, i as int, m as int));
            assert(strip_at(s@, i as int));
        }
        return true;
    }
    if s.get_char(m) == ';' && !contains_newline_from(s, m, n) {
        proof {
            assert(is_space_run_end(s@, i as int, m as int));
            assert(strip_at(s@, i as int));
        }
        return true;
    }
    proof {
        assert forall|m2: int| is_space_run_end(s@, i as int, m2) implies !(m2 == s@.len() || (
        s@[m2] == ';' && !seq_contains_char(s@.skip(m2), '\n'))) by {
            if m2 < m {
                assert(s@[m2] == ' ');
            } else if m2 > m {
                assert(s@[m as int] == ' ');
            }
        }
    }
    false
}

/// Cut the text at its first strip site, or drop a single leading space.
pub fn strip_query(s: &str) -> (r: String)
    ensures
        r@ == stripped(s@),
{
    let n = s.unicode_len();
    if n > 0 && s.get_char(0) == ' ' {
        let out = s.substring_char(1, n).to_owned();
        proof {
            assert(out@ =~= s@.drop_first());
        }
        return out;
    }
    let mut i: usize = 0;
    loop
        invariant
            n == s@.len(),
            i <= n,
            !(s@.len() > 0 && s@[0] == ' '),
            forall|k: int| 0 <= k < i ==> !strip_at(s@, k),
        decreases n - i,
    {
        if strip_match_at(s, i, n) {
            proof {
                assert(is_first_strip(s@, i as int));
                lemma_first_strip_unique(s@, first_strip(s@), i as int);
            }
            let out = s.substring_char(0, i).to_owned();
            proof {
                assert(first_strip(s@) == i as int);
                assert(out@ =~= stripped(s@));
            }
            return out;
        }
        proof {
            assert(i < n) by {
                if i == n {
                    assert(is_space_run_end(s@, n as int, n as int));
                    assert(strip_at(s@, n as int));
                }
            }
        }
        i += 1;
    }
}

/// Normalize a detection-query template: collapse the first
/// whitespace-newline run to a space, then cut the template at its first
/// strip site (a trailing semicolon fragment, trailing spaces, or one
/// leading space).
pub fn normalize_query(template: &str) -> (r: String)
    ensures
        r@ == stripped(collapsed(template@)),
{
    let c = collapse_query(template);
    strip_query(c.as_str())
}

/// Append the compiled `WHERE` clause and the final `;` to a rendered
/// detection query.
pub fn compose_query(rendered: &str, config: &WhereClause) -> (r: Result<String, Error>)
    ensures
        r matches Ok(t) ==> (where_sql(*config) matches Ok(w) && t@ == rendered@ + w + seq![';']),
        r matches Err(e) ==> (e matches Error::RenderSql(fe) && where_sql(*config) == Err::<
            Seq<char>,
            ErrorKind,
        >(error_kind(fe))),
{
    match crate::filter::compile(config) {
        Err(fe) => Err(Error::RenderSql(fe)),
        Ok(w) => {
            let mut out = rendered.to_owned();
            out.append(w.as_str());
            out.append(";");
            proof {
                reveal_strlit(";");
                assert(out@ =~= rendered@ + (match where_sql(*config) {
                    Ok(ws) => ws,
                    Err(_) => Seq::<char>::empty(),
                }) + seq![';']);
            }
            Ok(out)
        },
    }
}

/// The full query of one bound rule: the normalized template is rendered
/// against the scalar configuration values, the compiled `WHERE` clause is
/// appended, and the statement is terminated with `;`.  The engine decides
/// the rendered text; whatever it returns, the statement ends with the
/// compiled clause and `;`.
pub fn build_query(def: &crate::definition::Definition, vars: &Vec<(String, String)>, config: &WhereClause) -> (r:
    Result<String, Error>)
    ensures
        r matches Ok(t) ==> (where_sql(*config) matches Ok(w) && exists|rend: Seq<char>|
            t@ == rend + w + seq![';']),
        r matches Err(e) ==> ((e matches Error::Template(tag, _) && tag@ == "query"@) || (e
            matches Error::RenderSql(fe) && where_sql(*config) == Err::<Seq<char>, ErrorKind>(
            error_kind(fe),
        ))),
{
    let normalized = normalize_query(def.query.as_str());
    let rendered = match crate::render::render_template(normalized.as_str(), vars) {
        Ok(t) => t,
        Err(e) => {
            proof {
                reveal_strlit("query");
            }
            return Err(Error::Template("query".to_owned(), e));
        },
    };
    compose_query(rendered.as_str(), config)
}

} // verus!
