//! Compiler from a typed configuration value tree to the text of a SQL
//! `WHERE` clause.
//!
//! The grammar is small: a [`WhereClause`] holds plain fields (joined with
//! `AND`), an optional `only` list (an `OR` group) and an optional `except`
//! list (a negated group).  Every name and value is serialized by the rules
//! spelled out in the spec functions of this module, so the exact output text
//! is pinned down for every accepted input.

use vstd::prelude::*;

verus! {

/// Reason a configuration tree could not be compiled to SQL text.
///
/// The payload carries a short description of the offending fragment.
#[derive(Debug)]
pub enum Error {
    /// The value in name position cannot stand as a column name.
    Name(String),
    /// The value cannot stand as a column value.
    Value(String),
    /// The value cannot stand as a filter item.
    Filter(String),
    /// Any other serialization failure.
    Other(String),
}

/// The exact text `describe` produces for each error.
pub open spec fn describe_text(e: Error) -> Seq<char> {
    match e {
        Error::Name(m) => "the "@ + m@ + " cannot be used for a column name"@,
        Error::Value(m) => "the "@ + m@ + " cannot be used for a column value"@,
        Error::Filter(m) => "the "@ + m@ + " cannot be used for a filter"@,
        Error::Other(m) => "serialization failed: "@ + m@,
    }
}

impl Error {
    /// A short, human-readable account of the error, carrying the
    /// offending fragment's description.
    pub fn describe(&self) -> (r: String)
        ensures
            r@ == describe_text(*self),
    {
        let mut out = String::new();
        match self {
            Error::Name(e) => {
                out.append("the ");
                out.append(e.as_str());
                out.append(" cannot be used for a column name");
            },
            Error::Value(e) => {
                out.append("the ");
                out.append(e.as_str());
                out.append(" cannot be used for a column value");
            },
            Error::Filter(e) => {
                out.append("the ");
                out.append(e.as_str());
                out.append(" cannot be used for a filter");
            },
            Error::Other(e) => {
                out.append("serialization failed: ");
                out.append(e.as_str());
            },
        }
        proof {
            assert(out@ =~= describe_text(*self));
        }
        out
    }
}

/// Characters that may stand unquoted in a column name.
pub open spec fn is_word_char(c: char) -> bool {
    ('a' as u32 <= c as u32 && c as u32 <= 'z' as u32) || ('A' as u32 <= c as u32 && c as u32
        <= 'Z' as u32) || ('0' as u32 <= c as u32 && c as u32 <= '9' as u32) || c == '_'
}

pub open spec fn seq_contains_char(s: Seq<char>, c: char) -> bool {
    exists|i: int| 0 <= i < s.len() && s[i] == c
}

/// A name that is emitted without quotes: non-empty, word characters only.
pub open spec fn plain_name(s: Seq<char>) -> bool {
    s.len() > 0 && (forall|i: int| 0 <= i < s.len() ==> is_word_char(s[i]))
}

/// A name is accepted at all iff it is non-empty and has no double quote.
pub open spec fn name_accepted(s: Seq<char>) -> bool {
    s.len() > 0 && !seq_contains_char(s, '"')
}

/// The serialized form of an accepted name.
pub open spec fn name_sql(s: Seq<char>) -> Seq<char> {
    if plain_name(s) {
        s
    } else {
        seq!['"'] + s + seq!['"']
    }
}

fn char_is_word(c: char) -> (r: bool)
    ensures
        r == is_word_char(c),
{
    let u = c as u32;
    ('a' as u32 <= u && u <= 'z' as u32) || ('A' as u32 <= u && u <= 'Z' as u32) || ('0' as u32 <= u
        && u <= '9' as u32) || c == '_'
}

/// Whether the string contains the character anywhere.
pub fn str_contains_char(s: &str, c: char) -> (r: bool)
    ensures
        r == seq_contains_char(s@, c),
{
    let n = s.unicode_len();
    let mut i: usize = 0;
    while i < n
        invariant
            n == s@.len(),
            i <= n,
            forall|j: int| 0 <= j < i ==> s@[j] != c,
        decreases n - i,
    {
        if s.get_char(i) == c {
            assert(s@[i as int] == c);
            return true;
        }
        i += 1;
    }
    false
}

fn str_is_plain_name(s: &str) -> (r: bool)
    ensures
        r == plain_name(s@),
{
    let n = s.unicode_len();
    if n == 0 {
        return false;
    }
    let mut i: usize = 0;
    while i < n
        invariant
            n == s@.len(),
            i <= n,
            forall|j: int| 0 <= j < i ==> is_word_char(s@[j]),
        decreases n - i,
    {
        if !char_is_word(s.get_char(i)) {
            assert(!is_word_char(s@[i as int]));
            return false;
        }
        i += 1;
    }
    true
}

/// The character for one decimal digit.
pub open spec fn digit_char(d: int) -> char {
    if d == 0 {
        '0'
    } else if d == 1 {
        '1'
    } else if d == 2 {
        '2'
    } else if d == 3 {
        '3'
    } else if d == 4 {
        '4'
    } else if d == 5 {
        '5'
    } else if d == 6 {
        '6'
    } else if d == 7 {
        '7'
    } else if d == 8 {
        '8'
    } else {
        '9'
    }
}

/// The decimal digit string of a natural number, most significant digit first.
pub open spec fn dec_nat(n: nat) -> Seq<char>
    decreases n,
{
    if n < 10 {
        seq![digit_char(n as int)]
    } else {
        dec_nat(n / 10) + seq![digit_char((n % 10) as int)]
    }
}

/// The decimal form of a signed number: a minus sign for negatives.
pub open spec fn dec_int(i: int) -> Seq<char> {
    if i < 0 {
        seq!['-'] + dec_nat((-i) as nat)
    } else {
        dec_nat(i as nat)
    }
}

fn digit_str(d: u64) -> (r: &'static str)
    requires
        d < 10,
    ensures
        r@ =~= seq![digit_char(d as int)],
{
    proof {
        reveal_strlit("0");
        reveal_strlit("1");
        reveal_strlit("2");
        reveal_strlit("3");
        reveal_strlit("4");
        reveal_strlit("5");
        reveal_strlit("6");
        reveal_strlit("7");
        reveal_strlit("8");
        reveal_strlit("9");
    }
    match d {
        0 => "0",
        1 => "1",
        2 => "2",
        3 => "3",
        4 => "4",
        5 => "5",
        6 => "6",
        7 => "7",
        8 => "8",
        _ => "9",
    }
}

/// Render an unsigned number in decimal.
pub fn u64_to_string(n: u64) -> (r: String)
    ensures
        r@ == dec_nat(n as nat),
    decreases n,
{
    if n < 10 {
        digit_str(n).to_owned()
    } else {
        let mut r = u64_to_string(n / 10);
        r.append(digit_str(n % 10));
        r
    }
}

/// Render a signed number in decimal.
pub fn i64_to_string(i: i64) -> (r: String)
    ensures
        r@ == dec_int(i as int),
{
    if i >= 0 {
        u64_to_string(i as u64)
    } else {
        let m: u64 = (-(i as i128)) as u64;
        let mut r = "-".to_owned();
        r.append(u64_to_string(m).as_str());
        proof {
            reveal_strlit("-");
            assert(r@ =~= dec_int(i as int));
        }
        r
    }
}

/// Whether `n` occurs in `h` as a contiguous run, starting at `i`.
pub open spec fn seq_matches_at(h: Seq<char>, n: Seq<char>, i: int) -> bool {
    0 <= i && i + n.len() <= h.len() && h.subrange(i, i + n.len()) == n
}

/// Whether `n` occurs anywhere in `h` as a contiguous run.
pub open spec fn seq_contains_seq(h: Seq<char>, n: Seq<char>) -> bool {
    exists|i: int| seq_matches_at(h, n, i)
}

fn str_matches_at(h: &str, n: &str, i: usize) -> (r: bool)
    requires
        i + n@.len() <= h@.len(),
    ensures
        r == seq_matches_at(h@, n@, i as int),
{
    let hl = h.unicode_len();
    let nl = n.unicode_len();
    let mut j: usize = 0;
    while j < nl
        invariant
            hl == h@.len(),
            nl == n@.len(),
            i + nl <= h@.len(),
            j <= nl,
            forall|k: int| 0 <= k < j ==> h@[i + k] == n@[k],
        decreases nl - j,
    {
        if h.get_char(i + j) != n.get_char(j) {
            proof {
                assert(h@.subrange(i as int, i + n@.len()) != n@) by {
                    assert(h@.subrange(i as int, i + n@.len())[j as int] == h@[i + j]);
                }
            }
            return false;
        }
        j += 1;
    }
    proof {
        assert(h@.subrange(i as int, i + n@.len()) =~= n@);
    }
    true
}

/// Whether the string `n` occurs anywhere inside `h`.
pub fn str_contains_str(h: &str, n: &str) -> (r: bool)
    ensures
        r == seq_contains_seq(h@, n@),
{
    let hl = h.unicode_len();
    let nl = n.unicode_len();
    if nl > hl {
        return false;
    }
    let mut i: usize = 0;
    let end = hl - nl;
    loop
        invariant_except_break
            hl == h@.len(),
            nl == n@.len(),
            nl <= hl,
            end == hl - nl,
            i <= end,
            forall|j: int| 0 <= j < i ==> !seq_matches_at(h@, n@, j),
        ensures
            forall|j: int| 0 <= j <= end ==> !seq_matches_at(h@, n@, j),
        decreases end - i,
    {
        if str_matches_at(h, n, i) {
            return true;
        }
        if i == end {
            break;
        }
        i += 1;
    }
    false
}

pub open spec fn is_dec_digit(c: char) -> bool {
    '0' as u32 <= c as u32 && c as u32 <= '9' as u32
}

proof fn lemma_dec_nat_digits(n: nat)
    ensures
        forall|i: int| 0 <= i < dec_nat(n).len() ==> is_dec_digit(#[trigger] dec_nat(n)[i]),
    decreases n,
{
    if n < 10 {
        assert(dec_nat(n)[0] == digit_char(n as int));
        assert(is_dec_digit(digit_char(n as int)));
    } else {
        lemma_dec_nat_digits(n / 10);
        let prefix = dec_nat(n / 10);
        assert forall|i: int| 0 <= i < dec_nat(n).len() implies is_dec_digit(
            #[trigger] dec_nat(n)[i],
        ) by {
            if i < prefix.len() {
                assert(dec_nat(n)[i] == prefix[i]);
            } else {
                assert(dec_nat(n)[i] == digit_char((n % 10) as int));
                assert(is_dec_digit(digit_char((n % 10) as int)));
            }
        }
    }
}

proof fn lemma_dec_nat_len(n: nat)
    ensures
        dec_nat(n).len() >= 1,
        n >= 10 ==> dec_nat(n).len() >= 2,
    decreases n,
{
    if n >= 10 {
        lemma_dec_nat_len(n / 10);
    }
}

proof fn lemma_dec_nat_injective(a: nat, b: nat)
    requires
        dec_nat(a) == dec_nat(b),
    ensures
        a == b,
    decreases a,
{
    lemma_dec_nat_len(a);
    lemma_dec_nat_len(b);
    if a < 10 && b < 10 {
        assert(dec_nat(a)[0] == digit_char(a as int));
        assert(dec_nat(b)[0] == digit_char(b as int));
        assert(digit_char(a as int) == digit_char(b as int));
        assert(a == b);
    } else if a < 10 {
        assert(dec_nat(a).len() == 1);
        assert(dec_nat(b).len() >= 2);
        assert(false);
    } else if b < 10 {
        assert(dec_nat(a).len() >= 2);
        assert(dec_nat(b).len() == 1);
        assert(false);
    } else {
        let pa = dec_nat(a / 10);
        let pb = dec_nat(b / 10);
        assert(dec_nat(a).last() == digit_char((a % 10) as int)) by {
            assert(dec_nat(a) == pa + seq![digit_char((a % 10) as int)]);
            assert((pa + seq![digit_char((a % 10) as int)]).last() == digit_char((a % 10) as int));
        }
        assert(dec_nat(b).last() == digit_char((b % 10) as int)) by {
            assert(dec_nat(b) == pb + seq![digit_char((b % 10) as int)]);
            assert((pb + seq![digit_char((b % 10) as int)]).last() == digit_char((b % 10) as int));
        }
        assert(a % 10 == b % 10);
        assert(pa.len() == pb.len()) by {
            assert(dec_nat(a).len() == pa.len() + 1);
            assert(dec_nat(b).len() == pb.len() + 1);
        }
        assert forall|i: int| 0 <= i < pa.len() implies pa[i] == pb[i] by {
            assert(dec_nat(a)[i] == pa[i]);
            assert(dec_nat(b)[i] == pb[i]);
        }
        assert(pa =~= pb);
        lemma_dec_nat_injective(a / 10, b / 10);
    }
}

/// The delimiter `$n$` used to quote text that holds both `'` and `$$`.
pub open spec fn dollar_delim(n: nat) -> Seq<char> {
    seq!['$'] + dec_nat(n) + seq!['$']
}

proof fn lemma_delim_same_start(h: Seq<char>, a: nat, b: nat, i: int)
    requires
        seq_matches_at(h, dollar_delim(a), i),
        seq_matches_at(h, dollar_delim(b), i),
    ensures
        a == b,
{
    let da = dec_nat(a);
    let db = dec_nat(b);
    lemma_dec_nat_len(a);
    lemma_dec_nat_len(b);
    assert forall|k: int|
        0 <= k < dollar_delim(a).len() implies h[i + k] == #[trigger] dollar_delim(a)[k] by {
        assert(h.subrange(i, i + dollar_delim(a).len() as int)[k] == h[i + k]);
    }
    assert forall|k: int|
        0 <= k < dollar_delim(b).len() implies h[i + k] == #[trigger] dollar_delim(b)[k] by {
        assert(h.subrange(i, i + dollar_delim(b).len() as int)[k] == h[i + k]);
    }
    if da.len() == db.len() {
        assert forall|k: int| 0 <= k < da.len() implies da[k] == db[k] by {
            assert(dollar_delim(a)[1 + k] == da[k]);
            assert(dollar_delim(b)[1 + k] == db[k]);
            assert(h[i + (1 + k)] == dollar_delim(a)[1 + k]);
            assert(h[i + (1 + k)] == dollar_delim(b)[1 + k]);
        }
        assert(da =~= db);
        lemma_dec_nat_injective(a, b);
    } else if da.len() < db.len() {
        lemma_dec_nat_digits(b);
        assert(dollar_delim(a)[1 + da.len() as int] == '$');
        assert(dollar_delim(b)[1 + da.len() as int] == db[da.len() as int]);
        assert(is_dec_digit(db[da.len() as int]));
        assert(h[i + 1 + da.len() as int] == '$');
        assert(false);
    } else {
        lemma_dec_nat_digits(a);
        assert(dollar_delim(b)[1 + db.len() as int] == '$');
        assert(dollar_delim(a)[1 + db.len() as int] == da[db.len() as int]);
        assert(is_dec_digit(da[db.len() as int]));
        assert(h[i + 1 + db.len() as int] == '$');
        assert(false);
    }
}

proof fn lemma_injective_image_card(s: Set<int>, f: spec_fn(int) -> int)
    requires
        s.finite(),
        forall|x: int, y: int| s.contains(x) && s.contains(y) && #[trigger] f(x) == #[trigger] f(y)
            ==> x == y,
    ensures
        s.map(f).finite(),
        s.map(f).len() == s.len(),
    decreases s.len(),
{
    if s.len() == 0 {
        if exists|a: int| s.contains(a) {
            let a = choose|a: int| s.contains(a);
            assert(s.remove(a).len() + 1 == s.len());
            assert(false);
        }
        assert(s.map(f) =~= Set::empty());
    } else {
        if !(exists|a: int| s.contains(a)) {
            assert(s =~= Set::empty());
            assert(false);
        }
        let x = choose|a: int| s.contains(a);
        let s2 = s.remove(x);
        lemma_injective_image_card(s2, f);
        assert(s.map(f) =~= s2.map(f).insert(f(x)));
        assert(!s2.map(f).contains(f(x)));
    }
}

pub proof fn lemma_free_delim_exists(h: Seq<char>)
    ensures
        exists|n: nat| n <= h.len() && !seq_contains_seq(h, #[trigger] dollar_delim(n)),
{
    lemma_dec_nat_len(0);
    if h.len() < 3 {
        assert(dollar_delim(0nat).len() >= 3);
        assert(!seq_contains_seq(h, dollar_delim(0nat)));
        assert(0nat <= h.len() && !seq_contains_seq(h, dollar_delim(0nat)));
    } else if forall|n: nat| n <= h.len() ==> seq_contains_seq(h, #[trigger] dollar_delim(n)) {
        let ln = h.len() as int;
        let f = |n: int| choose|i: int| #[trigger] seq_matches_at(h, dollar_delim(n as nat), i);
        let s = vstd::set_lib::set_int_range(0, ln + 1);
        vstd::set_lib::lemma_int_range(0, ln + 1);
        assert forall|n: int| s.contains(n) implies seq_matches_at(
            h,
            dollar_delim(n as nat),
            #[trigger] f(n),
        ) by {
            assert(seq_contains_seq(h, dollar_delim(n as nat)));
            let i = choose|i: int| #[trigger] seq_matches_at(h, dollar_delim(n as nat), i);
            assert(seq_matches_at(h, dollar_delim(n as nat), i));
        }
        assert forall|x: int, y: int|
            s.contains(x) && s.contains(y) && #[trigger] f(x) == #[trigger] f(y) implies x == y by {
            lemma_delim_same_start(h, x as nat, y as nat, f(x));
        }
        lemma_injective_image_card(s, f);
        assert forall|p: int| s.map(f).contains(p) implies vstd::set_lib::set_int_range(
            0,
            ln - 2,
        ).contains(p) by {
            let n = choose|n: int| s.contains(n) && p == f(n);
            assert(seq_matches_at(h, dollar_delim(n as nat), f(n)));
            lemma_dec_nat_len(n as nat);
            assert(dollar_delim(n as nat).len() >= 3);
        }
        vstd::set_lib::lemma_int_range(0, ln - 2);
        vstd::set_lib::lemma_len_subset(s.map(f), vstd::set_lib::set_int_range(0, ln - 2));
        assert(false);
    }
}

/// The least `n` such that `$n$` does not occur in `h`.
pub open spec fn is_min_free_delim(h: Seq<char>, n: nat) -> bool {
    &&& !seq_contains_seq(h, dollar_delim(n))
    &&& forall|m: nat| m < n ==> seq_contains_seq(h, #[trigger] dollar_delim(m))
}

pub open spec fn min_free_delim(h: Seq<char>) -> nat {
    choose|n: nat| is_min_free_delim(h, n)
}

proof fn lemma_min_free_delim_unique(h: Seq<char>, a: nat, b: nat)
    requires
        is_min_free_delim(h, a),
        is_min_free_delim(h, b),
    ensures
        a == b,
{
    if a < b {
        assert(seq_contains_seq(h, dollar_delim(a)));
    } else if b < a {
        assert(seq_contains_seq(h, dollar_delim(b)));
    }
}

fn find_dollar_delim(s: &str) -> (r: String)
    ensures
        is_min_free_delim(s@, min_free_delim(s@)),
        r@ == dollar_delim(min_free_delim(s@)),
{
    proof {
        lemma_free_delim_exists(s@);
    }
    let hl = s.unicode_len();
    let ghost n0: nat = choose|n: nat|
        n <= s@.len() && !seq_contains_seq(s@, #[trigger] dollar_delim(n));
    let mut i: u64 = 0;
    loop
        invariant
            i <= n0,
            n0 <= hl as nat,
            hl as nat == s@.len(),
            !seq_contains_seq(s@, dollar_delim(n0)),
            forall|m: nat| m < i ==> seq_contains_seq(s@, #[trigger] dollar_delim(m)),
        decreases n0 - i,
    {
        let mut d = "$".to_owned();
        d.append(u64_to_string(i).as_str());
        d.append("$");
        proof {
            reveal_strlit("$");
            assert(d@ =~= dollar_delim(i as nat));
        }
        if !str_contains_str(s, d.as_str()) {
            proof {
                assert(is_min_free_delim(s@, i as nat));
                let k = min_free_delim(s@);
                assert(is_min_free_delim(s@, k));
                lemma_min_free_delim_unique(s@, k, i as nat);
            }
            return d;
        }
        proof {
            assert(i < n0) by {
                if i == n0 {
                    assert(seq_contains_seq(s@, dollar_delim(n0)));
                }
            }
        }
        i += 1;
    }
}

/// The delimiter chosen for a text value: `'` when the text has no single
/// quote; else `$$` when the text does not hold `$$`; else the first `$n$`
/// (n = 0, 1, 2, ...) that does not occur in the text.
pub open spec fn quote_delim(s: Seq<char>) -> Seq<char> {
    if !seq_contains_char(s, '\'') {
        seq!['\'']
    } else if !seq_contains_seq(s, seq!['$', '$']) {
        seq!['$', '$']
    } else {
        dollar_delim(min_free_delim(s))
    }
}

/// A text value, wrapped in its collision-free delimiter.
pub open spec fn quoted_text(s: Seq<char>) -> Seq<char> {
    quote_delim(s) + s + quote_delim(s)
}

/// Quote a text value for use as a SQL literal.
pub fn quote_text(s: &str) -> (r: String)
    ensures
        r@ == quoted_text(s@),
{
    proof {
        reveal_strlit("'");
        reveal_strlit("$$");
    }
    let delim: String = if !str_contains_char(s, '\'') {
        proof {
            assert(("'")@ =~= seq!['\'']);
        }
        "'".to_owned()
    } else if !str_contains_str(s, "$$") {
        proof {
            assert(("$$")@ =~= seq!['$', '$']);
        }
        "$$".to_owned()
    } else {
        proof {
            assert(("$$")@ =~= seq!['$', '$']);
        }
        find_dollar_delim(s)
    };
    let mut out = delim.clone();
    out.append(s);
    out.append(delim.as_str());
    proof {
        assert(delim@ == quote_delim(s@));
        assert(out@ =~= quoted_text(s@));
    }
    out
}

/// Serialize a column name.
///
/// Empty names and names holding a double quote are rejected; a name made of
/// word characters is emitted as it is; any other name is wrapped in double
/// quotes with its content untouched.
pub fn serialize_name(s: &str) -> (r: Result<String, Error>)
    ensures
        r is Ok <==> name_accepted(s@),
        r matches Ok(t) ==> t@ == name_sql(s@),
        r matches Err(e) ==> e is Name,
{
    if s.unicode_len() == 0 {
        return Err(Error::Name("empty string".to_owned()));
    }
    if str_contains_char(s, '"') {
        let mut msg = "string containing quotation mark ".to_owned();
        msg.append(s);
        return Err(Error::Name(msg));
    }
    if str_is_plain_name(s) {
        Ok(s.to_owned())
    } else {
        let mut out = "\"".to_owned();
        out.append(s);
        out.append("\"");
        proof {
            reveal_strlit("\"");
            assert(out@ =~= name_sql(s@));
        }
        Ok(out)
    }
}

/// One typed configuration value.
///
/// `Absent` is the only value that makes its owning field disappear from the
/// generated SQL.  `Bytes` and `Nested` cannot stand in value position and are
/// rejected when serialized.  `Number` carries a number already rendered in
/// decimal text (the form used for fractional limits); it is checked against
/// the decimal grammar before it is emitted.
pub enum FilterValue {
    Absent,
    Bool(bool),
    Int(i64),
    Uint(u64),
    Number(String),
    Char(char),
    Text(String),
    Sequence(Vec<FilterValue>),
    Bytes(Vec<u8>),
    Nested(Vec<FilterField>),
}

/// One named field of a filter: `name = value` once compiled.
pub struct FilterField {
    pub name: String,
    pub value: FilterValue,
}

/// Where the digits of a decimal text start: after an optional minus sign.
pub open spec fn dec_start(s: Seq<char>) -> int {
    if s.len() > 0 && s[0] == '-' {
        1
    } else {
        0
    }
}

pub open spec fn digits_range(s: Seq<char>, lo: int, hi: int) -> bool {
    forall|i: int| lo <= i < hi ==> is_dec_digit(#[trigger] s[i])
}

/// A valid split of a decimal text at a dot: digits on both sides.
pub open spec fn dot_split_at(s: Seq<char>, i: int) -> bool {
    &&& dec_start(s) < i
    &&& i < s.len() - 1
    &&& s[i] == '.'
    &&& digits_range(s, dec_start(s), i)
    &&& digits_range(s, i + 1, s.len() as int)
}

/// The decimal grammar accepted for `Number` values: an optional minus sign,
/// then digits, optionally one dot with digits on both sides.
pub open spec fn decimal_text(s: Seq<char>) -> bool {
    ||| (dec_start(s) < s.len() && digits_range(s, dec_start(s), s.len() as int))
    ||| (exists|i: int| #[trigger] dot_split_at(s, i))
}

fn range_all_digits(s: &str, lo: usize, hi: usize) -> (r: bool)
    requires
        lo <= hi <= s@.len(),
    ensures
        r == digits_range(s@, lo as int, hi as int),
{
    let mut i: usize = lo;
    while i < hi
        invariant
            lo <= i <= hi <= s@.len(),
            forall|j: int| lo <= j < i ==> is_dec_digit(#[trigger] s@[j]),
        decreases hi - i,
    {
        let c = s.get_char(i);
        let u = c as u32;
        if !('0' as u32 <= u && u <= '9' as u32) {
            assert(!is_dec_digit(s@[i as int]));
            return false;
        }
        i += 1;
    }
    true
}

fn is_decimal_text(s: &str) -> (r: bool)
    ensures
        r == decimal_text(s@),
{
    let n = s.unicode_len();
    if n == 0 {
        assert(!decimal_text(s@));
        return false;
    }
    let st: usize = if s.get_char(0) == '-' {
        1
    } else {
        0
    };
    assert(st == dec_start(s@));
    if st < n && range_all_digits(s, st, n) {
        return true;
    }
    if st + 2 > n {
        assert(forall|i: int| !dot_split_at(s@, i));
        return false;
    }
    let mut i: usize = st + 1;
    while i < n - 1
        invariant
            n == s@.len(),
            st == dec_start(s@),
            st + 1 <= i,
            i <= n,
            forall|j: int| st < j < i ==> !dot_split_at(s@, j),
        decreases n - i,
    {
        if s.get_char(i) == '.' && range_all_digits(s, st, i) && range_all_digits(s, i + 1, n) {
            assert(dot_split_at(s@, i as int));
            return true;
        }
        assert(!dot_split_at(s@, i as int));
        i += 1;
    }
    assert(forall|j: int| !dot_split_at(s@, j));
    false
}

/// Whether a value may stand in value position at all.
pub open spec fn value_ok(v: FilterValue) -> bool
    decreases v,
{
    match v {
        FilterValue::Bytes(_) => false,
        FilterValue::Nested(_) => false,
        FilterValue::Number(s) => decimal_text(s@),
        FilterValue::Sequence(elems) => forall|i: int|
            0 <= i < elems@.len() ==> value_ok(#[trigger] elems@[i]),
        _ => true,
    }
}

/// The running text of an array literal: elements appended in order, a comma
/// before each element unless the text so far still ends with the opening
/// bracket.
pub open spec fn array_body(elems: Seq<FilterValue>, acc: Seq<char>) -> Seq<char>
    decreases elems,
{
    if elems.len() == 0 {
        acc
    } else {
        let v = value_sql(elems.first());
        let acc2 = if acc.len() > 0 && acc.last() == '[' {
            acc + v
        } else {
            acc + seq![','] + v
        };
        array_body(elems.drop_first(), acc2)
    }
}

/// The serialized text of a value (meaningful when `value_ok` holds).
pub open spec fn value_sql(v: FilterValue) -> Seq<char>
    decreases v,
{
    match v {
        FilterValue::Absent => Seq::empty(),
        FilterValue::Bool(b) => if b {
            seq!['T', 'R', 'U', 'E']
        } else {
            seq!['F', 'A', 'L', 'S', 'E']
        },
        FilterValue::Int(i) => dec_int(i as int),
        FilterValue::Uint(u) => dec_nat(u as nat),
        FilterValue::Number(s) => s@,
        FilterValue::Char(c) => quoted_text(seq![c]),
        FilterValue::Text(s) => quoted_text(s@),
        FilterValue::Sequence(elems) => array_body(elems@, seq!['A', 'R', 'R', 'A', 'Y', '['])
            + seq![']'],
        FilterValue::Bytes(_) => Seq::empty(),
        FilterValue::Nested(_) => Seq::empty(),
    }
}

/// Relies on `String::from` for `char`: the resulting string holds exactly
/// the one character it was given.
#[verifier::external_body]
pub(crate) fn char_to_string(c: char) -> (r: String)
    ensures
        r@ == seq![c],
{
    String::from(c)
}

fn ends_with_char(s: &String, c: char) -> (r: bool)
    ensures
        r == (s@.len() > 0 && s@.last() == c),
{
    let n = s.as_str().unicode_len();
    if n == 0 {
        false
    } else {
        s.as_str().get_char(n - 1) == c
    }
}

/// Serialize a value for value position.
///
/// Booleans become `TRUE`/`FALSE`, numbers their decimal text, text values
/// are wrapped in a collision-free quote delimiter, sequences become
/// `ARRAY[...]` literals, and `Absent` serializes to the empty string (the
/// signal that the owning field is omitted).  Byte arrays and nested maps are
/// refused.
pub fn value_to_sql(v: &FilterValue) -> (r: Result<String, Error>)
    ensures
        r is Ok <==> value_ok(*v),
        r matches Ok(t) ==> t@ == value_sql(*v),
        r matches Err(e) ==> e is Value,
    decreases *v,
{
    match v {
        FilterValue::Absent => Ok(String::new()),
        FilterValue::Bool(b) => {
            proof {
                reveal_strlit("TRUE");
                reveal_strlit("FALSE");
                assert(("TRUE")@ =~= seq!['T', 'R', 'U', 'E']);
                assert(("FALSE")@ =~= seq!['F', 'A', 'L', 'S', 'E']);
            }
            if *b {
                Ok("TRUE".to_owned())
            } else {
                Ok("FALSE".to_owned())
            }
        },
        FilterValue::Int(i) => Ok(i64_to_string(*i)),
        FilterValue::Uint(u) => Ok(u64_to_string(*u)),
        FilterValue::Number(s) => {
            if is_decimal_text(s.as_str()) {
                Ok(s.clone())
            } else {
                let mut msg = "malformed number ".to_owned();
                msg.append(s.as_str());
                Err(Error::Value(msg))
            }
        },
        FilterValue::Char(c) => {
            let t = char_to_string(*c);
            Ok(quote_text(t.as_str()))
        },
        FilterValue::Text(s) => Ok(quote_text(s.as_str())),
        FilterValue::Sequence(elems) => {
            proof {
                reveal_strlit("ARRAY[");
                reveal_strlit(",");
                reveal_strlit("]");
                assert(("ARRAY[")@ =~= seq!['A', 'R', 'R', 'A', 'Y', '[']);
            }
            let mut out = "ARRAY[".to_owned();
            proof {
                assert(elems@.skip(0) =~= elems@);
            }
            let n = elems.len();
            let mut i: usize = 0;
            while i < n
                invariant
                    *v == FilterValue::Sequence(*elems),
                    n == elems@.len(),
                    i <= n,
                    forall|j: int| 0 <= j < i ==> value_ok(#[trigger] elems@[j]),
                    array_body(elems@.skip(i as int), out@) == array_body(
                        elems@,
                        seq!['A', 'R', 'R', 'A', 'Y', '['],
                    ),
                    out@.len() > 0,
                decreases n - i,
            {
                proof {
                    reveal_strlit(",");
                    assert((",")@ =~= seq![',']);
                    assert(elems@.skip(i as int).first() == elems@[i as int]);
                    assert(elems@.skip(i as int).drop_first() =~= elems@.skip(i as int + 1));
                    assert(*elems == v->Sequence_0);
                    assert(decreases_to!(*v => v->Sequence_0));
                    assert(decreases_to!(*elems => elems@));
                    assert(decreases_to!(elems@ => elems@[i as int]));
                    assert(decreases_to!(*v => elems@[i as int]));
                }
                match value_to_sql(&elems[i]) {
                    Ok(t) => {
                        if !ends_with_char(&out, '[') {
                            out.append(",");
                        }
                        out.append(t.as_str());
                    },
                    Err(e) => {
                        proof {
                            assert(!value_ok(elems@[i as int]));
                            assert(!value_ok(FilterValue::Sequence(*elems)));
                        }
                        return Err(e);
                    },
                }
                i += 1;
            }
            out.append("]");
            proof {
                assert(elems@.skip(n as int) =~= Seq::<FilterValue>::empty());
                assert(("]")@ =~= seq![']']);
                assert(out@ == value_sql(*v));
            }
            Ok(out)
        },
        FilterValue::Bytes(_) => Err(Error::Value("bytes array".to_owned())),
        FilterValue::Nested(_) => Err(Error::Value("map".to_owned())),
    }
}

/// One AND-group of fields: `name = value [AND name = value ...]`.
pub struct FilterItem {
    pub fields: Vec<FilterField>,
}

/// An ordered list of AND-groups, compiled to an OR-group.
pub struct FilterList {
    pub items: Vec<FilterItem>,
}

/// The root configuration: plain fields, an optional `only` list and an
/// optional `except` list, all AND-combined.
pub struct WhereClause {
    pub fields: Vec<FilterField>,
    pub only: Option<FilterList>,
    pub except: Option<FilterList>,
}

impl Default for WhereClause {
    /// The empty clause: no fields, no `only`, no `except`.
    fn default() -> (r: Self)
        ensures
            r.fields@.len() == 0,
            r.only is None,
            r.except is None,
    {
        WhereClause { fields: Vec::new(), only: None, except: None }
    }
}

/// The variant of an [`Error`], used by the contracts to pin down which
/// error a compilation step returns.
pub enum ErrorKind {
    Name,
    Value,
    Filter,
    Other,
}

pub open spec fn error_kind(e: Error) -> ErrorKind {
    match e {
        Error::Name(_) => ErrorKind::Name,
        Error::Value(_) => ErrorKind::Value,
        Error::Filter(_) => ErrorKind::Filter,
        Error::Other(_) => ErrorKind::Other,
    }
}

/// The running text of an AND-group.  Fields are taken in order: the value is
/// serialized first and a field whose value text is empty is skipped before
/// its name is ever looked at; surviving pairs are joined with `" AND "`.
/// A nested structure in value position is a `Filter` error here.
pub open spec fn item_fields_sql(fields: Seq<FilterField>, acc: Seq<char>) -> Result<
    Seq<char>,
    ErrorKind,
>
    decreases fields.len(),
{
    if fields.len() == 0 {
        Ok(acc)
    } else {
        let f = fields.first();
        if f.value is Nested {
            Err(ErrorKind::Filter)
        } else if !value_ok(f.value) {
            Err(ErrorKind::Value)
        } else {
            let v = value_sql(f.value);
            if v.len() == 0 {
                item_fields_sql(fields.drop_first(), acc)
            } else if !name_accepted(f.name@) {
                Err(ErrorKind::Name)
            } else {
                let pair = name_sql(f.name@) + seq![' ', '=', ' '] + v;
                let acc2 = if acc.len() == 0 {
                    pair
                } else {
                    acc + seq![' ', 'A', 'N', 'D', ' '] + pair
                };
                item_fields_sql(fields.drop_first(), acc2)
            }
        }
    }
}

pub open spec fn item_sql(item: FilterItem) -> Result<Seq<char>, ErrorKind> {
    item_fields_sql(item.fields@, Seq::empty())
}

/// Serialize one AND-group.
pub fn item_to_sql(item: &FilterItem) -> (r: Result<String, Error>)
    ensures
        r matches Ok(t) ==> item_sql(*item) == Ok::<Seq<char>, ErrorKind>(t@),
        r matches Err(e) ==> item_sql(*item) == Err::<Seq<char>, ErrorKind>(error_kind(e)),
{
    let mut out = String::new();
    let n = item.fields.len();
    let mut i: usize = 0;
    proof {
        assert(item.fields@.skip(0) =~= item.fields@);
    }
    while i < n
        invariant
            n == item.fields@.len(),
            i <= n,
            item_fields_sql(item.fields@.skip(i as int), out@) == item_sql(*item),
        decreases n - i,
    {
        proof {
            reveal_strlit(" AND ");
            reveal_strlit(" = ");
            assert((" AND ")@ =~= seq![' ', 'A', 'N', 'D', ' ']);
            assert((" = ")@ =~= seq![' ', '=', ' ']);
            assert(item.fields@.skip(i as int).first() == item.fields@[i as int]);
            assert(item.fields@.skip(i as int).drop_first() =~= item.fields@.skip(i as int + 1));
        }
        let f = &item.fields[i];
        if matches!(&f.value, FilterValue::Nested(_)) {
            return Err(Error::Filter("map".to_owned()));
        }
        match value_to_sql(&f.value) {
            Err(e) => {
                return Err(e);
            },
            Ok(v) => {
                if !v.as_str().is_empty() {
                    match serialize_name(f.name.as_str()) {
                        Err(e) => {
                            return Err(e);
                        },
                        Ok(nm) => {
                            let ghost out0 = out@;
                            if !out.as_str().is_empty() {
                                out.append(" AND ");
                            }
                            out.append(nm.as_str());
                            out.append(" = ");
                            out.append(v.as_str());
                            proof {
                                let pair = name_sql(f.name@) + seq![' ', '=', ' '] + value_sql(
                                    f.value,
                                );
                                if out0.len() == 0 {
                                    assert(out@ =~= pair);
                                } else {
                                    assert(out@ =~= out0 + seq![' ', 'A', 'N', 'D', ' '] + pair);
                                }
                            }
                        },
                    }
                }
            },
        }
        i += 1;
    }
    proof {
        assert(item.fields@.skip(n as int) =~= Seq::<FilterField>::empty());
    }
    Ok(out)
}

/// The tail of an OR-join: `" OR "` before each further element.
pub open spec fn join_or_tail(ts: Seq<Seq<char>>) -> Seq<char>
    decreases ts.len(),
{
    if ts.len() == 0 {
        Seq::empty()
    } else {
        seq![' ', 'O', 'R', ' '] + ts.first() + join_or_tail(ts.drop_first())
    }
}

pub open spec fn join_or(ts: Seq<Seq<char>>) -> Seq<char> {
    if ts.len() == 0 {
        Seq::empty()
    } else {
        ts.first() + join_or_tail(ts.drop_first())
    }
}

/// The texts of the non-empty items of a list, in order; the first failing
/// item decides the error.
pub open spec fn list_texts(items: Seq<FilterItem>) -> Result<Seq<Seq<char>>, ErrorKind>
    decreases items.len(),
{
    if items.len() == 0 {
        Ok(Seq::empty())
    } else {
        match item_sql(items.first()) {
            Err(k) => Err(k),
            Ok(t) => match list_texts(items.drop_first()) {
                Err(k) => Err(k),
                Ok(ts) => Ok(
                    if t.len() == 0 {
                        ts
                    } else {
                        seq![t] + ts
                    },
                ),
            },
        }
    }
}

/// A list compiles to nothing, to its single surviving item unwrapped, or to
/// a parenthesized OR-group of its surviving items.
pub open spec fn list_sql(l: FilterList) -> Result<Seq<char>, ErrorKind> {
    match list_texts(l.items@) {
        Err(k) => Err(k),
        Ok(ts) => Ok(
            if ts.len() == 0 {
                Seq::empty()
            } else if ts.len() == 1 {
                ts[0]
            } else {
                seq!['('] + join_or(ts) + seq![')']
            },
        ),
    }
}

/// Serialize an OR-group of AND-groups.
pub fn list_to_sql(l: &FilterList) -> (r: Result<String, Error>)
    ensures
        r matches Ok(t) ==> list_sql(*l) == Ok::<Seq<char>, ErrorKind>(t@),
        r matches Err(e) ==> list_sql(*l) == Err::<Seq<char>, ErrorKind>(error_kind(e)),
{
    let mut texts: Vec<String> = Vec::new();
    let n = l.items.len();
    let mut i: usize = 0;
    proof {
        assert(l.items@.skip(0) =~= l.items@);
        assert(texts@.map_values(|t: String| t@) =~~= Seq::<Seq<char>>::empty());
    }
    while i < n
        invariant
            n == l.items@.len(),
            i <= n,
            list_texts(l.items@) == match list_texts(l.items@.skip(i as int)) {
                Err(k) => Err::<Seq<Seq<char>>, ErrorKind>(k),
                Ok(rest) => Ok(texts@.map_values(|t: String| t@) + rest),
            },
        decreases n - i,
    {
        proof {
            assert(l.items@.skip(i as int).first() == l.items@[i as int]);
            assert(l.items@.skip(i as int).drop_first() =~= l.items@.skip(i as int + 1));
        }
        let ghost old_views = texts@.map_values(|t: String| t@);
        match item_to_sql(&l.items[i]) {
            Err(e) => {
                return Err(e);
            },
            Ok(t) => {
                if !t.as_str().is_empty() {
                    let ghost tv = t@;
                    texts.push(t);
                    proof {
                        assert(texts@.map_values(|t: String| t@) =~~= old_views + seq![tv]);
                    }
                }
                proof {
                    match list_texts(l.items@.skip(i as int + 1)) {
                        Err(_) => {},
                        Ok(rest) => {
                            assert(texts@.map_values(|t: String| t@) + rest =~~= old_views + (
                            match item_sql(l.items@[i as int]) {
                                Ok(tt) => if tt.len() == 0 {
                                    rest
                                } else {
                                    seq![tt] + rest
                                },
                                Err(_) => rest,
                            }));
                        },
                    }
                }
            },
        }
        i += 1;
    }
    proof {
        assert(l.items@.skip(n as int) =~= Seq::<FilterItem>::empty());
    }
    let ghost ts = texts@.map_values(|t: String| t@);
    proof {
        assert(list_texts(l.items@) == Ok::<Seq<Seq<char>>, ErrorKind>(ts));
    }
    if texts.len() == 0 {
        return Ok(String::new());
    }
    if texts.len() == 1 {
        let t = texts[0].clone();
        return Ok(t);
    }
    proof {
        reveal_strlit("(");
        reveal_strlit(")");
        reveal_strlit(" OR ");
        assert(("(")@ =~= seq!['(']);
        assert((")")@ =~= seq![')']);
        assert((" OR ")@ =~= seq![' ', 'O', 'R', ' ']);
    }
    let mut out = "(".to_owned();
    out.append(texts[0].as_str());
    proof {
        assert(ts.skip(1).drop_first() =~= ts.skip(2));
        assert(out@ =~= seq!['('] + ts.first());
    }
    let mut j: usize = 1;
    while j < texts.len()
        invariant
            1 <= j <= texts.len(),
            ts == texts@.map_values(|t: String| t@),
            out@ + join_or_tail(ts.skip(j as int)) == seq!['('] + join_or(ts),
        decreases texts.len() - j,
    {
        proof {
            reveal_strlit(" OR ");
            assert((" OR ")@ =~= seq![' ', 'O', 'R', ' ']);
            assert(ts.skip(j as int).first() == ts[j as int]);
            assert(ts.skip(j as int).drop_first() =~= ts.skip(j as int + 1));
        }
        out.append(" OR ");
        out.append(texts[j].as_str());
        j += 1;
    }
    proof {
        assert(ts.skip(texts@.len() as int) =~= Seq::<Seq<char>>::empty());
    }
    out.append(")");
    Ok(out)
}

/// AND-append a fragment to the running clause; an empty fragment changes
/// nothing.
pub open spec fn and_append(acc: Seq<char>, t: Seq<char>) -> Seq<char> {
    if t.len() == 0 {
        acc
    } else if acc.len() == 0 {
        t
    } else {
        acc + seq![' ', 'A', 'N', 'D', ' '] + t
    }
}

/// An `except` list is negated; it is parenthesized when it holds `" AND "`
/// and is not already wrapped.
pub open spec fn except_wrapped(t: Seq<char>) -> Seq<char> {
    if seq_contains_seq(t, seq![' ', 'A', 'N', 'D', ' ']) && !(t.len() > 0 && t[0] == '(') {
        seq!['('] + t + seq![')']
    } else {
        t
    }
}

pub open spec fn and_append_not(acc: Seq<char>, t: Seq<char>) -> Seq<char> {
    if t.len() == 0 {
        acc
    } else {
        and_append(acc, seq!['N', 'O', 'T', ' '] + except_wrapped(t))
    }
}

/// A non-empty clause is prefixed with `" WHERE "`.
pub open spec fn with_where_prefix(t: Seq<char>) -> Seq<char> {
    if t.len() == 0 {
        t
    } else {
        seq![' ', 'W', 'H', 'E', 'R', 'E', ' '] + t
    }
}

/// Plain fields at the root: the name is serialized first here, so a bad
/// name is reported even when the value would have been empty.
pub open spec fn where_fields_sql(fields: Seq<FilterField>, acc: Seq<char>) -> Result<
    Seq<char>,
    ErrorKind,
>
    decreases fields.len(),
{
    if fields.len() == 0 {
        Ok(acc)
    } else {
        let f = fields.first();
        if !name_accepted(f.name@) {
            Err(ErrorKind::Name)
        } else if !value_ok(f.value) {
            Err(ErrorKind::Value)
        } else {
            let v = value_sql(f.value);
            if v.len() == 0 {
                where_fields_sql(fields.drop_first(), acc)
            } else {
                let pair = name_sql(f.name@) + seq![' ', '=', ' '] + v;
                let acc2 = if acc.len() == 0 {
                    pair
                } else {
                    acc + seq![' ', 'A', 'N', 'D', ' '] + pair
                };
                where_fields_sql(fields.drop_first(), acc2)
            }
        }
    }
}

pub open spec fn opt_list_sql(o: Option<FilterList>) -> Result<Seq<char>, ErrorKind> {
    match o {
        None => Ok(Seq::empty()),
        Some(l) => list_sql(l),
    }
}

/// The whole clause: plain fields, then `only`, then a negated `except`,
/// prefixed with `" WHERE "` when anything survived.
pub open spec fn where_sql(w: WhereClause) -> Result<Seq<char>, ErrorKind> {
    match where_fields_sql(w.fields@, Seq::empty()) {
        Err(k) => Err(k),
        Ok(acc0) => match opt_list_sql(w.only) {
            Err(k) => Err(k),
            Ok(t1) => match opt_list_sql(w.except) {
                Err(k) => Err(k),
                Ok(t2) => Ok(with_where_prefix(and_append_not(and_append(acc0, t1), t2))),
            },
        },
    }
}

/// Compile a configuration to the text of its `WHERE` clause.
///
/// The result is the empty string when nothing survives, and otherwise
/// `" WHERE "` followed by a non-empty AND-chain; the exact text, and the
/// exact error otherwise, are given by [`where_sql`].
pub fn compile(config: &WhereClause) -> (r: Result<String, Error>)
    ensures
        r matches Ok(t) ==> where_sql(*config) == Ok::<Seq<char>, ErrorKind>(t@),
        r matches Err(e) ==> where_sql(*config) == Err::<Seq<char>, ErrorKind>(error_kind(e)),
{
    let mut out = String::new();
    let n = config.fields.len();
    let mut i: usize = 0;
    proof {
        assert(config.fields@.skip(0) =~= config.fields@);
    }
    while i < n
        invariant
            n == config.fields@.len(),
            i <= n,
            where_fields_sql(config.fields@.skip(i as int), out@) == where_fields_sql(
                config.fields@,
                Seq::empty(),
            ),
        decreases n - i,
    {
        proof {
            reveal_strlit(" AND ");
            reveal_strlit(" = ");
            assert((" AND ")@ =~= seq![' ', 'A', 'N', 'D', ' ']);
            assert((" = ")@ =~= seq![' ', '=', ' ']);
            assert(config.fields@.skip(i as int).first() == config.fields@[i as int]);
            assert(config.fields@.skip(i as int).drop_first() =~= config.fields@.skip(
                i as int + 1,
            ));
        }
        let f = &config.fields[i];
        match serialize_name(f.name.as_str()) {
            Err(e) => {
                return Err(e);
            },
            Ok(nm) => {
                match value_to_sql(&f.value) {
                    Err(e) => {
                        return Err(e);
                    },
                    Ok(v) => {
                        if !v.as_str().is_empty() {
                            let ghost out0 = out@;
                            if !out.as_str().is_empty() {
                                out.append(" AND ");
                            }
                            out.append(nm.as_str());
                            out.append(" = ");
                            out.append(v.as_str());
                            proof {
                                let pair = name_sql(f.name@) + seq![' ', '=', ' '] + value_sql(
                                    f.value,
                                );
                                if out0.len() == 0 {
                                    assert(out@ =~= pair);
                                } else {
                                    assert(out@ =~= out0 + seq![' ', 'A', 'N', 'D', ' '] + pair);
                                }
                            }
                        }
                    },
                }
            },
        }
        i += 1;
    }
    proof {
        assert(config.fields@.skip(n as int) =~= Seq::<FilterField>::empty());
    }
    let only_text: String = match &config.only {
        None => String::new(),
        Some(l) => match list_to_sql(l) {
            Err(e) => {
                return Err(e);
            },
            Ok(t) => t,
        },
    };
    proof {
        reveal_strlit(" AND ");
        assert((" AND ")@ =~= seq![' ', 'A', 'N', 'D', ' ']);
    }
    let ghost acc0 = out@;
    if !only_text.as_str().is_empty() {
        if !out.as_str().is_empty() {
            out.append(" AND ");
        }
        out.append(only_text.as_str());
    }
    proof {
        assert(out@ =~= and_append(acc0, only_text@));
    }
    let except_text: String = match &config.except {
        None => String::new(),
        Some(l) => match list_to_sql(l) {
            Err(e) => {
                return Err(e);
            },
            Ok(t) => t,
        },
    };
    let ghost acc1 = out@;
    if !except_text.as_str().is_empty() {
        proof {
            reveal_strlit("NOT ");
            reveal_strlit("(");
            reveal_strlit(")");
            assert(("NOT ")@ =~= seq!['N', 'O', 'T', ' ']);
            assert(("(")@ =~= seq!['(']);
            assert((")")@ =~= seq![')']);
        }
        if !out.as_str().is_empty() {
            out.append(" AND ");
        }
        out.append("NOT ");
        let wrap = str_contains_str(except_text.as_str(), " AND ") && !(except_text.as_str().get_char(
            0,
        ) == '(');
        if wrap {
            out.append("(");
            out.append(except_text.as_str());
            out.append(")");
        } else {
            out.append(except_text.as_str());
        }
        proof {
            assert(except_wrapped(except_text@) == if wrap {
                seq!['('] + except_text@ + seq![')']
            } else {
                except_text@
            });
            assert(out@ =~= and_append(acc1, seq!['N', 'O', 'T', ' '] + except_wrapped(
                except_text@,
            )));
        }
    }
    proof {
        assert(out@ =~= and_append_not(acc1, except_text@));
    }
    if out.as_str().is_empty() {
        proof {
            assert(out@ =~= with_where_prefix(out@));
        }
        Ok(out)
    } else {
        proof {
            reveal_strlit(" WHERE ");
            assert((" WHERE ")@ =~= seq![' ', 'W', 'H', 'E', 'R', 'E', ' ']);
        }
        let mut prefixed = " WHERE ".to_owned();
        prefixed.append(out.as_str());
        proof {
            assert(prefixed@ =~= with_where_prefix(out@));
        }
        Ok(prefixed)
    }
}

/// An AND-group whose every field is `Absent` compiles to the empty string.
pub proof fn lemma_absent_fields_empty(fields: Seq<FilterField>, acc: Seq<char>)
    requires
        forall|i: int| 0 <= i < fields.len() ==> (#[trigger] fields[i].value) is Absent,
    ensures
        item_fields_sql(fields, acc) == Ok::<Seq<char>, ErrorKind>(acc),
    decreases fields.len(),
{
    if fields.len() > 0 {
        assert(fields[0].value is Absent);
        assert(forall|i: int|
            0 <= i < fields.drop_first().len() ==> (#[trigger] fields.drop_first()[i].value)
                is Absent);
        lemma_absent_fields_empty(fields.drop_first(), acc);
    }
}

/// `Absent` values never appear: a filter item whose every field is `Absent`
/// compiles to the empty string.
pub proof fn lemma_absent_item_empty(item: FilterItem)
    requires
        forall|i: int| 0 <= i < item.fields@.len() ==> (#[trigger] item.fields@[i].value) is Absent,
    ensures
        item_sql(item) == Ok::<Seq<char>, ErrorKind>(Seq::<char>::empty()),
{
    lemma_absent_fields_empty(item.fields@, Seq::empty());
}

/// A clause with no fields at all compiles to the empty string, with no
/// `" WHERE "` prefix.
pub proof fn lemma_empty_clause_empty(w: WhereClause)
    requires
        w.fields@.len() == 0,
        w.only is None,
        w.except is None,
    ensures
        where_sql(w) == Ok::<Seq<char>, ErrorKind>(Seq::<char>::empty()),
{
}

} // verus!
