//! Query envelopes and identifier helpers of the search interface.

use vstd::prelude::*;
use crate::util::{push_char, spec_decimal, u64_to_string};
use crate::v_api::common_type::ResultCode;

verus! {

/// What a query answered: rows and bookkeeping.
#[derive(Debug)]
pub struct QueryResult {
    pub result: Vec<String>,
    pub count: i64,
    pub estimated: i64,
    pub processed: i64,
    pub cursor: i64,
    pub total_time: i64,
    pub query_time: i64,
    pub authorize_time: i64,
    pub result_code: ResultCode,
}

impl Default for QueryResult {
    /// An empty, not-ready result.
    fn default() -> (r: QueryResult)
        ensures
            r.result@ == Seq::<String>::empty(),
            r.count == 0i64 && r.estimated == 0i64 && r.processed == 0i64 && r.cursor == 0i64,
            r.total_time == 0i64 && r.query_time == 0i64 && r.authorize_time == 0i64,
            r.result_code == ResultCode::NotReady,
    {
        QueryResult {
            result: Vec::new(),
            count: 0,
            estimated: 0,
            processed: 0,
            cursor: 0,
            total_time: 0,
            query_time: 0,
            authorize_time: 0,
            result_code: ResultCode::NotReady,
        }
    }
}

/// How rows of a result are laid out.
#[derive(Debug, PartialEq, Eq, Structural)]
pub enum ResultFormat {
    Rows,
    Cols,
    Full,
}

/// At which grain query results are authorized.
#[derive(Debug, PartialEq, Eq, Structural)]
pub enum AuthorizationLevel {
    Query,
    Cell,
    RowColumn,
}

/// A full-text query envelope.
#[derive(Debug)]
pub struct FTQuery {
    pub ticket: String,
    pub user: String,
    pub query: String,
    pub sort: String,
    pub databases: String,
    pub reopen: bool,
    pub top: i32,
    pub limit: i32,
    pub from: i32,
}

/// A string with every double quote escaped.
pub open spec fn spec_escape_quotes(s: Seq<char>) -> Seq<char>
    decreases s.len(),
{
    if s.len() == 0 {
        Seq::empty()
    } else {
        spec_escape_quotes(s.drop_last()) + (if s.last() == '"' {
            seq!['\\', '"']
        } else {
            seq![s.last()]
        })
    }
}

/// Decimal rendering of a signed value.
pub open spec fn spec_i32_string(n: int) -> Seq<char> {
    if n >= 0 {
        spec_decimal(n)
    } else {
        seq!['-'] + spec_decimal(-n)
    }
}

/// The wire text of a truth value.
pub open spec fn spec_bool_string(b: bool) -> Seq<char> {
    if b {
        "true"@
    } else {
        "false"@
    }
}

/// The wire form of a query envelope: the ticket, or the user behind
/// a `"UU=` tag, then the escaped query, sort, databases, and the
/// numeric fields.
pub open spec fn spec_ftquery_string(q: FTQuery) -> Seq<char> {
    "[\""@ + (if q.ticket@.len() == 0 {
        if q.user@.len() > 0 {
            "\"UU="@ + q.user@
        } else {
            Seq::empty()
        }
    } else {
        q.ticket@
    }) + "\",\""@ + spec_escape_quotes(q.query@) + "\",\""@ + q.sort@ + "\",\""@ + q.databases@
        + "\","@ + spec_bool_string(q.reopen) + seq![','] + spec_i32_string(q.top as int)
        + seq![','] + spec_i32_string(q.limit as int) + seq![','] + spec_i32_string(q.from as int)
        + seq![']']
}

/// Appends a signed value in decimal.
fn push_i32(out: &mut String, n: i32)
    ensures
        final(out)@ == old(out)@ + spec_i32_string(n as int),
{
    if n < 0 {
        push_char(out, '-');
        let m: i64 = -(n as i64);
        let s = u64_to_string(m as u64);
        out.append(s.as_str());
        proof {
            assert(out@ =~= old(out)@ + spec_i32_string(n as int));
        }
    } else {
        let s = u64_to_string(n as u64);
        out.append(s.as_str());
    }
}

impl FTQuery {
    /// An envelope for a user's query with default limits.
    pub fn new_with_user(user: &str, query: &str) -> (r: FTQuery)
        ensures
            r.ticket@ == Seq::<char>::empty(),
            r.user@ == user@,
            r.query@ == query@,
            r.sort@ == Seq::<char>::empty(),
            r.databases@ == Seq::<char>::empty(),
            r.reopen == false,
            r.top == 10000i32 && r.limit == 10000i32 && r.from == 0i32,
    {
        FTQuery {
            ticket: String::new(),
            user: user.to_owned(),
            query: query.to_owned(),
            sort: String::new(),
            databases: String::new(),
            reopen: false,
            top: 10000,
            limit: 10000,
            from: 0,
        }
    }

    /// An envelope for a ticketed query with default limits.
    pub fn new_with_ticket(ticket: &str, query: &str) -> (r: FTQuery)
        ensures
            r.ticket@ == ticket@,
            r.user@ == Seq::<char>::empty(),
            r.query@ == query@,
            r.sort@ == Seq::<char>::empty(),
            r.databases@ == Seq::<char>::empty(),
            r.reopen == false,
            r.top == 10000i32 && r.limit == 10000i32 && r.from == 0i32,
    {
        FTQuery {
            ticket: ticket.to_owned(),
            user: String::new(),
            query: query.to_owned(),
            sort: String::new(),
            databases: String::new(),
            reopen: false,
            top: 10000,
            limit: 10000,
            from: 0,
        }
    }

    /// Renders the envelope in its wire form.
    pub fn as_string(&self) -> (r: String)
        ensures
            r@ == spec_ftquery_string(*self),
    {
        let mut s = String::new();
        s.append("[\"");
        if self.ticket.as_str().unicode_len() == 0 {
            if self.user.as_str().unicode_len() > 0 {
                s.append("\"UU=");
                s.append(self.user.as_str());
            }
        } else {
            s.append(self.ticket.as_str());
        }
        s.append("\",\"");
        let q = self.query.as_str();
        let n = q.unicode_len();
        let ghost before_query = s@;
        let mut i: usize = 0;
        proof {
            assert(q@.take(0) =~= Seq::<char>::empty());
            assert(spec_escape_quotes(q@.take(0)) =~= Seq::<char>::empty());
            assert(s@ =~= before_query + spec_escape_quotes(q@.take(0)));
        }
        while i < n
            invariant
                0 <= i <= n,
                n == q@.len(),
                s@ =~= before_query + spec_escape_quotes(q@.take(i as int)),
            decreases n - i,
        {
            let c = q.get_char(i);
            proof {
                assert(q@.take(i + 1).drop_last() =~= q@.take(i as int));
                assert(q@.take(i + 1).last() == q@[i as int]);
            }
            if c == '"' {
                s.append("\\\"");
                proof {
                    reveal_strlit("\\\"");
                    assert("\\\""@ =~= seq!['\\', '"']);
                }
            } else {
                push_char(&mut s, c);
            }
            proof {
                assert(s@ =~= before_query + spec_escape_quotes(q@.take(i + 1)));
            }
            i = i + 1;
        }
        proof {
            assert(q@.take(n as int) =~= q@);
        }
        s.append("\",\"");
        s.append(self.sort.as_str());
        s.append("\",\"");
        s.append(self.databases.as_str());
        s.append("\",");
        if self.reopen {
            s.append("true");
        } else {
            s.append("false");
        }
        push_char(&mut s, ',');
        push_i32(&mut s, self.top);
        push_char(&mut s, ',');
        push_i32(&mut s, self.limit);
        push_char(&mut s, ',');
        push_i32(&mut s, self.from);
        push_char(&mut s, ']');
        proof {
            assert(s@ =~= spec_ftquery_string(*self));
        }
        s
    }
}

/// Last position of a character, if any.
pub open spec fn spec_rfind_char(s: Seq<char>, c: char) -> Option<int>
    decreases s.len(),
{
    if s.len() == 0 {
        None
    } else if s.last() == c {
        Some(s.len() - 1)
    } else {
        spec_rfind_char(s.drop_last(), c)
    }
}

/// Finds the last position of a character.
fn rfind_char(s: &str, c: char) -> (r: Option<usize>)
    ensures
        match r {
            Some(i) => spec_rfind_char(s@, c) == Some(i as int),
            None => spec_rfind_char(s@, c) is None,
        },
{
    let n = s.unicode_len();
    let mut i: usize = n;
    proof {
        assert(s@.take(n as int) =~= s@);
    }
    while i > 0
        invariant
            0 <= i <= n,
            n == s@.len(),
            spec_rfind_char(s@, c) == spec_rfind_char(s@.take(i as int), c),
        decreases i,
    {
        i = i - 1;
        let ch = s.get_char(i);
        proof {
            assert(s@.take(i + 1).last() == s@[i as int]);
            assert(s@.take(i + 1).drop_last() =~= s@.take(i as int));
        }
        if ch == c {
            return Some(i);
        }
    }
    proof {
        assert(s@.take(0).len() == 0);
    }
    None
}

/// The split point of a full prefix: one past the last slash, else
/// one past the last hash, else one.
pub open spec fn spec_full_prefix_pos(v: Seq<char>) -> int {
    match spec_rfind_char(v, '/') {
        Some(n) => n,
        None => match spec_rfind_char(v, '#') {
            Some(n) => n,
            None => 0,
        },
    }
}

/// Splits an identifier into its namespace prefix and local name, at
/// one past the last slash or hash.
pub fn split_full_prefix(v: &str) -> (r: (&str, &str))
    requires
        v@.len() > 0,
    ensures
        ({
            let pos = spec_full_prefix_pos(v@) + 1;
            r.0@ == v@.take(if pos <= v@.len() {
                pos
            } else {
                v@.len() as int
            }) && r.1@ == v@.skip(if pos <= v@.len() {
                pos
            } else {
                v@.len() as int
            })
        }),
{
    let pos = match rfind_char(v, '/') {
        Some(n) => n,
        None => match rfind_char(v, '#') {
            Some(n) => n,
            None => 0,
        },
    };
    proof {
        lemma_rfind_in_range(v@, '/');
        lemma_rfind_in_range(v@, '#');
    }
    let n = v.unicode_len();
    let cut = if pos + 1 <= n {
        pos + 1
    } else {
        n
    };
    let left = v.substring_char(0, cut);
    let right = v.substring_char(cut, n);
    (left, right)
}

/// A found position lies inside the string.
proof fn lemma_rfind_in_range(s: Seq<char>, c: char)
    ensures
        spec_rfind_char(s, c) matches Some(i) ==> 0 <= i < s.len(),
    decreases s.len(),
{
    if s.len() == 0 {
    } else {
        lemma_rfind_in_range(s.drop_last(), c);
    }
}

/// Splits `prefix:rest` at the last colon, if there is one.
pub fn split_short_prefix(v: &str) -> (r: Option<(&str, &str)>)
    ensures
        match spec_rfind_char(v@, ':') {
            Some(i) => r matches Some(pair) && pair.0@ == v@.take(i) && pair.1@ == v@.skip(i + 1),
            None => r is None,
        },
{
    match rfind_char(v, ':') {
        Some(pos) => {
            proof {
                lemma_rfind_in_range(v@, ':');
            }
            let n = v.unicode_len();
            let left = v.substring_char(0, pos);
            let right = v.substring_char(pos + 1, n);
            Some((left, right))
        },
        None => None,
    }
}

/// True of lowercase ASCII letters.
pub open spec fn spec_is_lower(c: char) -> bool {
    97 <= c as int && c as int <= 122
}

/// True of uppercase ASCII letters.
pub open spec fn spec_is_upper(c: char) -> bool {
    65 <= c as int && c as int <= 90
}

/// True of the characters allowed after the prefix's first letter.
pub open spec fn spec_is_lower_digit(c: char) -> bool {
    spec_is_lower(c) || crate::util::spec_is_digit(c)
}

/// True of the characters allowed in the local name.
pub open spec fn spec_is_name_char(c: char) -> bool {
    spec_is_lower(c) || spec_is_upper(c) || crate::util::spec_is_digit(c) || c == '-' || c == '_'
}

/// The shape of an identifier: a lowercase alphanumeric prefix that
/// starts with a letter, a colon, and a local name of letters, digits,
/// hyphens and underscores.
pub open spec fn spec_is_identifier(s: Seq<char>) -> bool {
    match crate::util::spec_find_char(s, ':') {
        Some(i) => 1 <= i && spec_is_lower(s[0]) && (forall|j: int|
            1 <= j < i ==> spec_is_lower_digit(#[trigger] s[j])) && (forall|j: int|
            i < j < s.len() ==> spec_is_name_char(#[trigger] s[j])),
        None => false,
    }
}

/// Decides whether a string is a well-formed identifier.
pub fn is_identifier(s: &str) -> (r: bool)
    ensures
        r == spec_is_identifier(s@),
{
    let n = s.unicode_len();
    let mut colon: Option<usize> = None;
    let mut i: usize = 0;
    while i < n
        invariant
            0 <= i <= n,
            n == s@.len(),
            match colon {
                Some(k) => k < i && s@[k as int] == ':' && (forall|j: int|
                    0 <= j < k ==> s@[j] != ':'),
                None => forall|j: int| 0 <= j < i ==> s@[j] != ':',
            },
        decreases n - i,
    {
        let c = s.get_char(i);
        if c == ':' && colon.is_none() {
            colon = Some(i);
        }
        i = i + 1;
    }
    let k: usize = match colon {
        Some(k) => k,
        None => {
            proof {
                crate::util::lemma_find_char(s@, ':');
                match crate::util::spec_find_char(s@, ':') {
                    Some(x) => {
                        assert(s@[x] != ':');
                        assert(false);
                    },
                    None => {},
                }
            }
            return false;
        },
    };
    proof {
        crate::util::lemma_find_char(s@, ':');
        match crate::util::spec_find_char(s@, ':') {
            Some(x) => {
                if x < k {
                    assert(s@[x] != ':');
                    assert(false);
                }
                if x > k {
                    assert(s@[k as int] != ':');
                    assert(false);
                }
            },
            None => {
                assert(s@[k as int] != ':');
                assert(false);
            },
        }
        assert(crate::util::spec_find_char(s@, ':') == Some(k as int));
    }
    if k < 1 {
        return false;
    }
    let c0 = s.get_char(0);
    let u0 = c0 as u32;
    if !(97 <= u0 && u0 <= 122) {
        return false;
    }
    let mut j: usize = 1;
    while j < k
        invariant
            1 <= j <= k,
            k < n,
            n == s@.len(),
            crate::util::spec_find_char(s@, ':') == Some(k as int),
            forall|t: int| 1 <= t < j ==> spec_is_lower_digit(#[trigger] s@[t]),
        decreases k - j,
    {
        let c = s.get_char(j);
        let u = c as u32;
        if !((97 <= u && u <= 122) || (48 <= u && u <= 57)) {
            proof {
                assert(!spec_is_lower_digit(s@[j as int]));
            }
            return false;
        }
        j = j + 1;
    }
    let mut t: usize = k + 1;
    while t < n
        invariant
            k < t <= n,
            k < n,
            n == s@.len(),
            crate::util::spec_find_char(s@, ':') == Some(k as int),
            1 <= k,
            spec_is_lower(s@[0]),
            forall|x: int| 1 <= x < k ==> spec_is_lower_digit(#[trigger] s@[x]),
            forall|x: int| k < x < t ==> spec_is_name_char(#[trigger] s@[x]),
        decreases n - t,
    {
        let c = s.get_char(t);
        let u = c as u32;
        if !((97 <= u && u <= 122) || (65 <= u && u <= 90) || (48 <= u && u <= 57) || c == '-' || c
            == '_') {
            proof {
                assert(!spec_is_name_char(s@[t as int]));
            }
            return false;
        }
        t = t + 1;
    }
    true
}

} // verus!
