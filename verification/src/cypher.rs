//! The query language front end: a tokenizer for the Cypher-like surface
//! syntax and a recursive-descent parser producing a typed query AST.

use vstd::prelude::*;

verus! {

/// A parsed query: either a pattern match or a creation statement.
#[derive(Debug, Clone)]
pub enum CypherQuery {
    Match {
        match_pattern: MatchPattern,
        where_clause: Option<WhereClause>,
        return_clause: ReturnClause,
        limit: Option<usize>,
    },
    Create { create_pattern: CreatePattern },
}

/// What a CREATE statement creates.
#[derive(Debug, Clone)]
pub enum CreatePattern {
    Node { variable: String, label: Option<String>, data: Option<Vec<u8>> },
    Edge {
        from: NodePattern,
        from_id: Option<u128>,
        edge: EdgePattern,
        to: NodePattern,
        to_id: Option<u128>,
    },
}

/// The shape a MATCH clause looks for.
#[derive(Debug, Clone)]
pub enum MatchPattern {
    SingleNode { variable: String, label: Option<String> },
    Relationship { from: NodePattern, edge: EdgePattern, to: NodePattern },
}

/// A node endpoint in a pattern: a variable with an optional label.
#[derive(Debug, Clone)]
pub struct NodePattern {
    pub variable: String,
    pub label: Option<String>,
}

/// An edge in a pattern: a direction and an optional label.
#[derive(Debug, Clone)]
pub struct EdgePattern {
    pub direction: EdgeDirection,
    pub label: Option<String>,
}

/// Which way a pattern edge points.
#[derive(Debug, Clone, Copy, PartialEq, Eq, Structural)]
pub enum EdgeDirection {
    Outgoing,
    Incoming,
    Bidirectional,
}

/// An optional equality constraint from a WHERE clause.
#[derive(Debug, Clone)]
pub enum WhereClause {
    NodeIdEq { variable: String, value: u128 },
    NodeAttrEq { variable: String, attr: String, value: String },
}

/// What a MATCH query returns.
#[derive(Debug, Clone)]
pub enum ReturnClause {
    NodeId { variable: String },
    NodeAttr { variable: String, attr: String },
    All,
}

/// Why a query failed to parse.
#[derive(Debug, Clone, PartialEq, Eq, Structural)]
pub enum ParseError {
    UnexpectedToken,
    InvalidSyntax,
    MissingLimit,
}

/// Mathematical image of a `NodePattern`.
pub ghost struct NodePatternModel {
    pub variable: Seq<char>,
    pub label: Option<Seq<char>>,
}

/// Mathematical image of an `EdgePattern`.
pub ghost struct EdgePatternModel {
    pub direction: EdgeDirection,
    pub label: Option<Seq<char>>,
}

/// Mathematical image of a `MatchPattern`.
pub ghost enum MatchPatternModel {
    SingleNode { variable: Seq<char>, label: Option<Seq<char>> },
    Relationship { from: NodePatternModel, edge: EdgePatternModel, to: NodePatternModel },
}

/// Mathematical image of a `CreatePattern`.
pub ghost enum CreatePatternModel {
    Node { variable: Seq<char>, label: Option<Seq<char>>, data: Option<Seq<u8>> },
    Edge {
        from: NodePatternModel,
        from_id: Option<u128>,
        edge: EdgePatternModel,
        to: NodePatternModel,
        to_id: Option<u128>,
    },
}

/// Mathematical image of a `WhereClause`.
pub ghost enum WhereClauseModel {
    NodeIdEq { variable: Seq<char>, value: u128 },
    NodeAttrEq { variable: Seq<char>, attr: Seq<char>, value: Seq<char> },
}

/// Mathematical image of a `ReturnClause`.
pub ghost enum ReturnClauseModel {
    NodeId { variable: Seq<char> },
    NodeAttr { variable: Seq<char>, attr: Seq<char> },
    All,
}

/// Mathematical image of a `CypherQuery`.
pub ghost enum CypherQueryModel {
    Match {
        match_pattern: MatchPatternModel,
        where_clause: Option<WhereClauseModel>,
        return_clause: ReturnClauseModel,
        limit: Option<usize>,
    },
    Create { create_pattern: CreatePatternModel },
}

/// The view of an optional string.
pub open spec fn opt_str_view(o: Option<String>) -> Option<Seq<char>> {
    match o {
        Some(s) => Some(s@),
        None => None,
    }
}

impl View for NodePattern {
    type V = NodePatternModel;

    open spec fn view(&self) -> NodePatternModel {
        NodePatternModel { variable: self.variable@, label: opt_str_view(self.label) }
    }
}

impl View for EdgePattern {
    type V = EdgePatternModel;

    open spec fn view(&self) -> EdgePatternModel {
        EdgePatternModel { direction: self.direction, label: opt_str_view(self.label) }
    }
}

impl View for MatchPattern {
    type V = MatchPatternModel;

    open spec fn view(&self) -> MatchPatternModel {
        match self {
            MatchPattern::SingleNode { variable, label } => MatchPatternModel::SingleNode {
                variable: variable@,
                label: opt_str_view(*label),
            },
            MatchPattern::Relationship { from, edge, to } => MatchPatternModel::Relationship {
                from: from@,
                edge: edge@,
                to: to@,
            },
        }
    }
}

impl View for CreatePattern {
    type V = CreatePatternModel;

    open spec fn view(&self) -> CreatePatternModel {
        match self {
            CreatePattern::Node { variable, label, data } => CreatePatternModel::Node {
                variable: variable@,
                label: opt_str_view(*label),
                data: match data {
                    Some(d) => Some(d@),
                    None => None,
                },
            },
            CreatePattern::Edge { from, from_id, edge, to, to_id } => CreatePatternModel::Edge {
                from: from@,
                from_id: *from_id,
                edge: edge@,
                to: to@,
                to_id: *to_id,
            },
        }
    }
}

impl View for WhereClause {
    type V = WhereClauseModel;

    open spec fn view(&self) -> WhereClauseModel {
        match self {
            WhereClause::NodeIdEq { variable, value } => WhereClauseModel::NodeIdEq {
                variable: variable@,
                value: *value,
            },
            WhereClause::NodeAttrEq { variable, attr, value } => WhereClauseModel::NodeAttrEq {
                variable: variable@,
                attr: attr@,
                value: value@,
            },
        }
    }
}

impl View for ReturnClause {
    type V = ReturnClauseModel;

    open spec fn view(&self) -> ReturnClauseModel {
        match self {
            ReturnClause::NodeId { variable } => ReturnClauseModel::NodeId { variable: variable@ },
            ReturnClause::NodeAttr { variable, attr } => ReturnClauseModel::NodeAttr {
                variable: variable@,
                attr: attr@,
            },
            ReturnClause::All => ReturnClauseModel::All,
        }
    }
}

/// The view of an optional where clause.
pub open spec fn opt_where_view(o: Option<WhereClause>) -> Option<WhereClauseModel> {
    match o {
        Some(w) => Some(w@),
        None => None,
    }
}

impl View for CypherQuery {
    type V = CypherQueryModel;

    open spec fn view(&self) -> CypherQueryModel {
        match self {
            CypherQuery::Match { match_pattern, where_clause, return_clause, limit } => CypherQueryModel::Match {
                match_pattern: match_pattern@,
                where_clause: opt_where_view(*where_clause),
                return_clause: return_clause@,
                limit: *limit,
            },
            CypherQuery::Create { create_pattern } => CypherQueryModel::Create {
                create_pattern: create_pattern@,
            },
        }
    }
}

/// The view of a token list: each token as its character sequence.
pub open spec fn toks(ts: Seq<String>) -> Seq<Seq<char>> {
    ts.map_values(|t: String| t@)
}

/// The whitespace characters that end a token.
pub open spec fn is_ws(c: char) -> bool {
    c == ' ' || c == '\t' || c == '\n' || c == '\r'
}

/// The characters that always form single-character tokens.
pub open spec fn is_punct(c: char) -> bool {
    ||| c == '('
    ||| c == ')'
    ||| c == '['
    ||| c == ']'
    ||| c == '-'
    ||| c == '>'
    ||| c == '<'
    ||| c == ':'
    ||| c == '='
    ||| c == ','
    ||| c == '{'
    ||| c == '}'
    ||| c == '.'
}

/// The quote characters that toggle string mode.
pub open spec fn is_quote(c: char) -> bool {
    c == '\'' || c == '"'
}

/// The tokenizer as a character-by-character state machine: `cur` is the
/// token in progress, `in_str` the string mode, `acc` the tokens emitted so
/// far.
pub open spec fn tokenize_from(
    s: Seq<char>,
    cur: Seq<char>,
    in_str: bool,
    acc: Seq<Seq<char>>,
) -> Seq<Seq<char>>
    decreases s.len(),
{
    if s.len() == 0 {
        if cur.len() > 0 {
            acc.push(cur)
        } else {
            acc
        }
    } else {
        let c = s[0];
        let rest = s.drop_first();
        if in_str && !is_quote(c) {
            tokenize_from(rest, cur.push(c), true, acc)
        } else if is_ws(c) {
            if cur.len() > 0 {
                tokenize_from(rest, Seq::empty(), false, acc.push(cur))
            } else {
                tokenize_from(rest, cur, false, acc)
            }
        } else if is_punct(c) {
            let acc1 = if cur.len() > 0 {
                acc.push(cur)
            } else {
                acc
            };
            tokenize_from(rest, Seq::empty(), false, acc1.push(seq![c]))
        } else if is_quote(c) {
            if in_str {
                tokenize_from(rest, Seq::empty(), false, acc.push(cur))
            } else {
                tokenize_from(rest, cur, true, acc)
            }
        } else {
            tokenize_from(rest, cur.push(c), false, acc)
        }
    }
}

/// The token stream of a query text.
pub open spec fn spec_tokenize(s: Seq<char>) -> Seq<Seq<char>> {
    tokenize_from(s, Seq::empty(), false, Seq::empty())
}

/// Case-insensitive match of one character against an upper-case one: equal
/// outright, or equal after mapping an ASCII lower-case letter up.
pub open spec fn upper_eq_char(c: char, k: char) -> bool {
    c == k || (97 <= c as u32 <= 122 && c as u32 - 32 == k as u32)
}

/// Case-insensitive match of a token against a keyword written in upper
/// case.
pub open spec fn is_kw(t: Seq<char>, kw: Seq<char>) -> bool {
    t.len() == kw.len() && forall|i: int| 0 <= i < t.len() ==> upper_eq_char(t[i], #[trigger] kw[i])
}

/// An ASCII decimal digit.
pub open spec fn is_digit(c: char) -> bool {
    48 <= c as u32 <= 57
}

/// The numeric value of an ASCII decimal digit.
pub open spec fn digit_val(c: char) -> int {
    c as u32 - 48
}

/// The value of a digit string, most significant digit first.
pub open spec fn dec_val(s: Seq<char>) -> int
    decreases s.len(),
{
    if s.len() == 0 {
        0
    } else {
        dec_val(s.drop_last()) * 10 + digit_val(s.last())
    }
}

/// A non-empty, all-digit string.
pub open spec fn digits_ok(s: Seq<char>) -> bool {
    s.len() > 0 && forall|i: int| 0 <= i < s.len() ==> is_digit(#[trigger] s[i])
}

/// The digits of a number token: one leading `+` sign is allowed.
pub open spec fn sign_stripped(s: Seq<char>) -> Seq<char> {
    if s.len() > 0 && s[0] == '+' {
        s.drop_first()
    } else {
        s
    }
}

/// An unsigned decimal number, `Some` exactly when the token is an optional
/// `+` followed by one or more digits whose value fits.
pub open spec fn spec_parse_usize(s: Seq<char>) -> Option<usize> {
    let d = sign_stripped(s);
    if digits_ok(d) && dec_val(d) <= usize::MAX {
        Some(dec_val(d) as usize)
    } else {
        None
    }
}

/// As `spec_parse_usize`, for 128-bit values.
pub open spec fn spec_parse_u128(s: Seq<char>) -> Option<u128> {
    let d = sign_stripped(s);
    if digits_ok(d) && dec_val(d) <= u128::MAX {
        Some(dec_val(d) as u128)
    } else {
        None
    }
}

proof fn lemma_dec_val_nonneg(s: Seq<char>)
    requires
        forall|i: int| 0 <= i < s.len() ==> is_digit(#[trigger] s[i]),
    ensures
        dec_val(s) >= 0,
    decreases s.len(),
{
    if s.len() > 0 {
        lemma_dec_val_nonneg(s.drop_last());
    }
}

proof fn lemma_dec_val_take_le(s: Seq<char>, j: int)
    requires
        forall|i: int| 0 <= i < s.len() ==> is_digit(#[trigger] s[i]),
        0 <= j <= s.len(),
    ensures
        dec_val(s.take(j)) <= dec_val(s),
    decreases s.len() - j,
{
    if j == s.len() {
        assert(s.take(j) =~= s);
    } else {
        lemma_dec_val_take_le(s, j + 1);
        assert(s.take(j + 1).drop_last() =~= s.take(j));
        assert(dec_val(s.take(j + 1)) == dec_val(s.take(j)) * 10 + digit_val(s[j]));
        lemma_dec_val_nonneg(s.take(j));
    }
}

/// The numeric value of a digit character, or none.
fn digit_of(c: char) -> (r: Option<u32>)
    ensures
        match r {
            Some(v) => is_digit(c) && v == digit_val(c),
            None => !is_digit(c),
        },
{
    let u = c as u32;
    if 48 <= u && u <= 57 {
        Some(u - 48)
    } else {
        None
    }
}

/// Parse a token as an unsigned decimal `usize`.
fn parse_usize_token(t: &String) -> (r: Option<usize>)
    ensures
        r == spec_parse_usize(t@),
{
    let s = t.as_str();
    let len = s.unicode_len();
    let mut start: usize = 0;
    if len > 0 && s.get_char(0) == '+' {
        start = 1;
    }
    proof {
        assert(sign_stripped(t@) =~= t@.skip(start as int));
    }
    let ghost d = sign_stripped(t@);
    if start == len {
        proof {
            assert(!digits_ok(d));
        }
        return None;
    }
    let mut acc: usize = 0;
    let mut i = start;
    while i < len
        invariant
            s@ == t@,
            start <= i <= len,
            len == t@.len(),
            start < len,
            d == sign_stripped(t@),
            d == t@.skip(start as int),
            d.len() == len - start,
            forall|j: int| 0 <= j < i - start ==> is_digit(#[trigger] d[j]),
            acc == dec_val(d.take(i - start)),
        decreases len - i,
    {
        let c = s.get_char(i);
        proof {
            assert(d[i - start] == t@[i as int]);
        }
        let dv = match digit_of(c) {
            Some(v) => v,
            None => {
                return None;
            },
        };
        proof {
            assert(d.take(i - start + 1).drop_last() =~= d.take(i - start));
        }
        let next = match acc.checked_mul(10) {
            Some(m) => m.checked_add(dv as usize),
            None => None,
        };
        acc = match next {
            Some(v) => v,
            None => {
                proof {
                    assert(dec_val(d.take(i - start + 1)) > usize::MAX);
                    assert forall|j: int| 0 <= j < d.len() implies is_digit(#[trigger] d[j]) || !digits_ok(d) by {}
                    if digits_ok(d) {
                        lemma_dec_val_take_le(d, i - start + 1);
                    }
                }
                return None;
            },
        };
        i = i + 1;
    }
    proof {
        assert(d.take(d.len() as int) =~= d);
        lemma_dec_val_nonneg(d);
    }
    Some(acc)
}

/// Parse a token as an unsigned decimal `u128`.
fn parse_u128_token(t: &String) -> (r: Option<u128>)
    ensures
        r == spec_parse_u128(t@),
{
    let s = t.as_str();
    let len = s.unicode_len();
    let mut start: usize = 0;
    if len > 0 && s.get_char(0) == '+' {
        start = 1;
    }
    proof {
        assert(sign_stripped(t@) =~= t@.skip(start as int));
    }
    let ghost d = sign_stripped(t@);
    if start == len {
        proof {
            assert(!digits_ok(d));
        }
        return None;
    }
    let mut acc: u128 = 0;
    let mut i = start;
    while i < len
        invariant
            s@ == t@,
            start <= i <= len,
            len == t@.len(),
            start < len,
            d == sign_stripped(t@),
            d == t@.skip(start as int),
            d.len() == len - start,
            forall|j: int| 0 <= j < i - start ==> is_digit(#[trigger] d[j]),
            acc == dec_val(d.take(i - start)),
        decreases len - i,
    {
        let c = s.get_char(i);
        proof {
            assert(d[i - start] == t@[i as int]);
        }
        let dv = match digit_of(c) {
            Some(v) => v,
            None => {
                return None;
            },
        };
        proof {
            assert(d.take(i - start + 1).drop_last() =~= d.take(i - start));
        }
        let next = match acc.checked_mul(10) {
            Some(m) => m.checked_add(dv as u128),
            None => None,
        };
        acc = match next {
            Some(v) => v,
            None => {
                proof {
                    assert(dec_val(d.take(i - start + 1)) > u128::MAX);
                    if digits_ok(d) {
                        lemma_dec_val_take_le(d, i - start + 1);
                    }
                }
                return None;
            },
        };
        i = i + 1;
    }
    proof {
        assert(d.take(d.len() as int) =~= d);
        lemma_dec_val_nonneg(d);
    }
    Some(acc)
}

/// Whether every character of the token is an ASCII decimal digit; true for
/// the empty token.
fn all_digits(t: &String) -> (r: bool)
    ensures
        r == forall|i: int| 0 <= i < t@.len() ==> is_digit(#[trigger] t@[i]),
{
    let s = t.as_str();
    let len = s.unicode_len();
    for i in 0..len
        invariant
            s@ == t@,
            len == t@.len(),
            forall|j: int| 0 <= j < i ==> is_digit(#[trigger] t@[j]),
    {
        let c = s.get_char(i);
        if digit_of(c).is_none() {
            return false;
        }
    }
    true
}

/// The value of a hexadecimal digit, case-insensitive; negative for any
/// other character.
pub open spec fn hex_val(c: char) -> int {
    if 48 <= c as u32 <= 57 {
        c as u32 - 48
    } else if 97 <= c as u32 <= 102 {
        c as u32 - 87
    } else if 65 <= c as u32 <= 70 {
        c as u32 - 55
    } else {
        -1
    }
}

/// Decode a hexadecimal digit string, two digits to a byte: `Some` exactly
/// when the length is even and every character is a hex digit.
pub open spec fn spec_hex_decode(s: Seq<char>) -> Option<Seq<u8>>
    decreases s.len(),
{
    if s.len() % 2 != 0 {
        None
    } else if s.len() == 0 {
        Some(Seq::empty())
    } else {
        let h = hex_val(s[0]);
        let l = hex_val(s[1]);
        if h < 0 || l < 0 {
            None
        } else {
            match spec_hex_decode(s.skip(2)) {
                Some(rest) => Some(seq![(h * 16 + l) as u8] + rest),
                None => None,
            }
        }
    }
}

/// The token with every leading and every trailing `c` removed.
pub open spec fn trim_char(s: Seq<char>, c: char) -> Seq<char>
    decreases s.len(),
{
    if s.len() > 0 && s[0] == c {
        trim_char(s.drop_first(), c)
    } else if s.len() > 0 && s[s.len() - 1] == c {
        trim_char(s.drop_last(), c)
    } else {
        s
    }
}

/// An ASCII letter or underscore: what an identifier may start with.
pub open spec fn is_ident_start(c: char) -> bool {
    (65 <= c as u32 <= 90) || (97 <= c as u32 <= 122) || c == '_'
}

/// Exact comparison of a token with a literal string.
fn token_eq_str(t: &String, s: &str) -> (r: bool)
    ensures
        r == (t@ == s@),
{
    let tl = t.as_str().unicode_len();
    let sl = s.unicode_len();
    if tl != sl {
        return false;
    }
    for i in 0..tl
        invariant
            tl == t@.len(),
            sl == s@.len(),
            tl == sl,
            forall|j: int| 0 <= j < i ==> t@[j] == s@[j],
    {
        if t.as_str().get_char(i) != s.get_char(i) {
            return false;
        }
    }
    proof {
        assert(t@ =~= s@);
    }
    true
}

/// Case-insensitive comparison of a token with a keyword written in upper
/// case.
fn token_is_kw(t: &String, kw: &str) -> (r: bool)
    ensures
        r == is_kw(t@, kw@),
{
    let tl = t.as_str().unicode_len();
    let kl = kw.unicode_len();
    if tl != kl {
        return false;
    }
    for i in 0..tl
        invariant
            tl == t@.len(),
            kl == kw@.len(),
            tl == kl,
            forall|j: int| 0 <= j < i ==> upper_eq_char(t@[j], #[trigger] kw@[j]),
    {
        let cu = t.as_str().get_char(i) as u32;
        let ku = kw.get_char(i) as u32;
        let ok = cu == ku || (97 <= cu && cu <= 122 && cu - 32 == ku);
        if !ok {
            proof {
                assert(t@[i as int] as u32 == cu && kw@[i as int] as u32 == ku);
                assert(!upper_eq_char(t@[i as int], kw@[i as int])) by {
                    if t@[i as int] == kw@[i as int] {
                        assert(cu == ku);
                    }
                }
            }
            return false;
        }
        proof {
            assert(upper_eq_char(t@[i as int], kw@[i as int]));
        }
    }
    true
}

/// The value of a hexadecimal digit character, at most fifteen, or none.
fn hex_digit(c: char) -> (r: Option<u8>)
    ensures
        match r {
            Some(v) => hex_val(c) == v && 0 <= v <= 15,
            None => hex_val(c) < 0,
        },
{
    let u = c as u32;
    if 48 <= u && u <= 57 {
        Some((u - 48) as u8)
    } else if 97 <= u && u <= 102 {
        Some((u - 87) as u8)
    } else if 65 <= u && u <= 70 {
        Some((u - 55) as u8)
    } else {
        None
    }
}

/// Decode an even-length hexadecimal digit string into bytes, two digits to
/// a byte; an odd length or a stray character is a syntax error.
pub fn parse_hex_string(hex: &str) -> (r: Result<Vec<u8>, ParseError>)
    ensures
        match r {
            Ok(b) => spec_hex_decode(hex@) == Some(b@),
            Err(e) => spec_hex_decode(hex@) is None && e == ParseError::InvalidSyntax,
        },
{
    let len = hex.unicode_len();
    if len % 2 != 0 {
        return Err(ParseError::InvalidSyntax);
    }
    let mut bytes: Vec<u8> = Vec::new();
    let mut i: usize = 0;
    proof {
        assert(hex@.skip(0) =~= hex@);
    }
    while i < len
        invariant
            i <= len,
            i % 2 == 0,
            len % 2 == 0,
            len == hex@.len(),
            match spec_hex_decode(hex@.skip(i as int)) {
                Some(rest) => spec_hex_decode(hex@) == Some(bytes@ + rest),
                None => spec_hex_decode(hex@) is None,
            },
        decreases len - i,
    {
        proof {
            assert(hex@.skip(i as int)[0] == hex@[i as int]);
            assert(hex@.skip(i as int)[1] == hex@[i as int + 1]);
            assert(hex@.skip(i as int).skip(2) =~= hex@.skip(i as int + 2));
        }
        let h = match hex_digit(hex.get_char(i)) {
            Some(v) => v,
            None => {
                return Err(ParseError::InvalidSyntax);
            },
        };
        let l = match hex_digit(hex.get_char(i + 1)) {
            Some(v) => v,
            None => {
                return Err(ParseError::InvalidSyntax);
            },
        };
        let ghost pre_bytes = bytes@;
        let b = h * 16 + l;
        bytes.push(b);
        proof {
            if spec_hex_decode(hex@.skip(i as int + 2)) is Some {
                let rest = spec_hex_decode(hex@.skip(i as int + 2)).unwrap();
                assert(pre_bytes + (seq![b] + rest) =~= bytes@ + rest);
            }
        }
        i = i + 2;
    }
    proof {
        assert(hex@.skip(len as int) =~= Seq::<char>::empty());
        assert(bytes@ + Seq::<u8>::empty() =~= bytes@);
    }
    Ok(bytes)
}

/// The string with every leading and trailing occurrence of `c` removed.
fn str_trim_char(s: &str, c: char) -> (r: String)
    ensures
        r@ == trim_char(s@, c),
{
    let len = s.unicode_len();
    let mut lo: usize = 0;
    let mut hi: usize = len;
    proof {
        assert(s@.subrange(0, len as int) =~= s@);
    }
    while lo < hi && s.get_char(lo) == c
        invariant
            lo <= hi,
            hi == len,
            len == s@.len(),
            trim_char(s@.subrange(lo as int, hi as int), c) == trim_char(s@, c),
        decreases hi - lo,
    {
        proof {
            assert(s@.subrange(lo as int, hi as int).drop_first() =~= s@.subrange(
                lo as int + 1,
                hi as int,
            ));
        }
        lo = lo + 1;
    }
    while hi > lo && s.get_char(hi - 1) == c
        invariant
            lo <= hi <= len,
            len == s@.len(),
            trim_char(s@.subrange(lo as int, hi as int), c) == trim_char(s@, c),
            lo == hi || s@[lo as int] != c,
        decreases hi,
    {
        proof {
            assert(s@.subrange(lo as int, hi as int).drop_last() =~= s@.subrange(
                lo as int,
                hi as int - 1,
            ));
        }
        hi = hi - 1;
    }
    let out = s.substring_char(lo, hi).to_owned();
    proof {
        assert(trim_char(s@.subrange(lo as int, hi as int), c) == s@.subrange(
            lo as int,
            hi as int,
        ));
    }
    out
}

/// Whether the token starts like an identifier.
fn ident_start(t: &String) -> (r: bool)
    ensures
        r == (t@.len() > 0 && is_ident_start(t@[0])),
{
    if t.as_str().is_empty() {
        return false;
    }
    let c = t.as_str().get_char(0);
    let u = c as u32;
    (65 <= u && u <= 90) || (97 <= u && u <= 122) || c == '_'
}

/// Consuming a keyword from the front of a token stream.
pub open spec fn spec_expect_keyword(ts: Seq<Seq<char>>, kw: Seq<char>) -> (Result<
    (),
    ParseError,
>, Seq<Seq<char>>) {
    if ts.len() == 0 {
        (Err(ParseError::UnexpectedToken), ts)
    } else if !is_kw(ts[0], kw) {
        (Err(ParseError::UnexpectedToken), ts)
    } else {
        (Ok(()), ts.drop_first())
    }
}

/// Consuming an exact token from the front of a token stream.
pub open spec fn spec_expect_char(ts: Seq<Seq<char>>, c: Seq<char>) -> (Result<
    (),
    ParseError,
>, Seq<Seq<char>>) {
    if ts.len() == 0 || ts[0] != c {
        (Err(ParseError::UnexpectedToken), ts)
    } else {
        (Ok(()), ts.drop_first())
    }
}

/// Consuming an identifier: the head token is removed, and accepted when its
/// first character is a letter or an underscore.
pub open spec fn spec_expect_identifier(ts: Seq<Seq<char>>) -> (Result<
    Seq<char>,
    ParseError,
>, Seq<Seq<char>>) {
    if ts.len() == 0 {
        (Err(ParseError::UnexpectedToken), ts)
    } else if ts[0].len() > 0 && is_ident_start(ts[0][0]) {
        (Ok(ts[0]), ts.drop_first())
    } else {
        (Err(ParseError::UnexpectedToken), ts.drop_first())
    }
}

/// Consuming a decimal number: the head token is removed, and must parse.
pub open spec fn spec_expect_number(ts: Seq<Seq<char>>) -> (Result<
    usize,
    ParseError,
>, Seq<Seq<char>>) {
    if ts.len() == 0 {
        (Err(ParseError::UnexpectedToken), ts)
    } else {
        match spec_parse_usize(ts[0]) {
            Some(v) => (Ok(v), ts.drop_first()),
            None => (Err(ParseError::InvalidSyntax), ts.drop_first()),
        }
    }
}

/// Consuming a string value: the head token is removed and stripped of any
/// quote characters left at its edges.
pub open spec fn spec_expect_string(ts: Seq<Seq<char>>) -> (Result<
    Seq<char>,
    ParseError,
>, Seq<Seq<char>>) {
    if ts.len() == 0 {
        (Err(ParseError::UnexpectedToken), ts)
    } else {
        (Ok(trim_char(trim_char(ts[0], '\''), '"')), ts.drop_first())
    }
}

/// The MATCH keyword.
pub open spec fn kw_match() -> Seq<char> {
    seq!['M', 'A', 'T', 'C', 'H']
}

/// The CREATE keyword.
pub open spec fn kw_create() -> Seq<char> {
    seq!['C', 'R', 'E', 'A', 'T', 'E']
}

/// The WHERE keyword.
pub open spec fn kw_where() -> Seq<char> {
    seq!['W', 'H', 'E', 'R', 'E']
}

/// The RETURN keyword.
pub open spec fn kw_return() -> Seq<char> {
    seq!['R', 'E', 'T', 'U', 'R', 'N']
}

/// The LIMIT keyword.
pub open spec fn kw_limit() -> Seq<char> {
    seq!['L', 'I', 'M', 'I', 'T']
}

/// Whether the stream holds a token that reads as an edge marker. The
/// tokenizer splits `-` and `>` apart, so outside quoted strings only the
/// bare `-` occurs.
pub open spec fn arrow_token(t: Seq<char>) -> bool {
    t == seq!['-', '>'] || t == seq!['<', '-'] || t == seq!['-']
}

pub open spec fn has_arrow(ts: Seq<Seq<char>>) -> bool {
    exists|i: int| 0 <= i < ts.len() && arrow_token(#[trigger] ts[i])
}

/// An optional `: Label` suffix after a variable.
pub open spec fn spec_opt_label(ts: Seq<Seq<char>>) -> (Result<
    Option<Seq<char>>,
    ParseError,
>, Seq<Seq<char>>) {
    if ts.len() > 0 && ts[0] == seq![':'] {
        let (r, ts2) = spec_expect_identifier(ts.drop_first());
        match r {
            Ok(l) => (Ok(Some(l)), ts2),
            Err(e) => (Err(e), ts2),
        }
    } else {
        (Ok(None), ts)
    }
}

/// The optional `: Label` inside an already-open bracket pair; empty
/// brackets and a bare colon before `]` both mean an unlabeled edge.
pub open spec fn spec_edge_label(ts: Seq<Seq<char>>) -> (Result<
    Option<Seq<char>>,
    ParseError,
>, Seq<Seq<char>>) {
    if ts.len() > 0 && ts[0] == seq![':'] {
        let ts1 = ts.drop_first();
        if ts1.len() > 0 && ts1[0] == seq![']'] {
            (Ok(None), ts1)
        } else {
            let (r, ts2) = spec_expect_identifier(ts1);
            match r {
                Ok(l) => (Ok(Some(l)), ts2),
                Err(e) => (Err(e), ts2),
            }
        }
    } else {
        (Ok(None), ts)
    }
}

/// A single-node pattern: `( var [: Label] )`.
pub open spec fn spec_parse_single_node(ts: Seq<Seq<char>>) -> (Result<
    MatchPatternModel,
    ParseError,
>, Seq<Seq<char>>) {
    let (r1, ts1) = spec_expect_char(ts, seq!['(']);
    match r1 {
        Err(e) => (Err(e), ts1),
        Ok(u) => {
            let (r2, ts2) = spec_expect_identifier(ts1);
            match r2 {
                Err(e) => (Err(e), ts2),
                Ok(variable) => {
                    let (r3, ts3) = spec_opt_label(ts2);
                    match r3 {
                        Err(e) => (Err(e), ts3),
                        Ok(label) => {
                            let (r4, ts4) = spec_expect_char(ts3, seq![')']);
                            match r4 {
                                Err(e) => (Err(e), ts4),
                                Ok(u2) => (
                                    Ok(MatchPatternModel::SingleNode { variable, label }),
                                    ts4,
                                ),
                            }
                        },
                    }
                },
            }
        },
    }
}

/// The closing tokens after the bracketed edge label of a relationship,
/// consumed as far as they agree with the direction already decided.
pub open spec fn spec_consume_closing(ts: Seq<Seq<char>>, direction: EdgeDirection) -> Seq<
    Seq<char>,
> {
    match direction {
        EdgeDirection::Outgoing => {
            let a = if ts.len() > 0 && ts[0] == seq!['-'] {
                ts.drop_first()
            } else {
                ts
            };
            if a.len() > 0 && a[0] == seq!['>'] {
                a.drop_first()
            } else {
                a
            }
        },
        EdgeDirection::Incoming => {
            let a = if ts.len() > 0 && ts[0] == seq!['<'] {
                ts.drop_first()
            } else {
                ts
            };
            if a.len() > 0 && a[0] == seq!['-'] {
                a.drop_first()
            } else {
                a
            }
        },
        EdgeDirection::Bidirectional => {
            if ts.len() > 0 && ts[0] == seq!['-'] {
                ts.drop_first()
            } else {
                ts
            }
        },
    }
}

/// A relationship pattern: two node endpoints joined by a directed,
/// bracketed edge.
pub open spec fn spec_parse_relationship(ts: Seq<Seq<char>>) -> (Result<
    MatchPatternModel,
    ParseError,
>, Seq<Seq<char>>) {
    let (r1, ts1) = spec_expect_char(ts, seq!['(']);
    match r1 {
        Err(e) => (Err(e), ts1),
        Ok(u) => {
            let (r2, ts2) = spec_expect_identifier(ts1);
            match r2 {
                Err(e) => (Err(e), ts2),
                Ok(from_var) => {
                    let (r3, ts3) = spec_opt_label(ts2);
                    match r3 {
                        Err(e) => (Err(e), ts3),
                        Ok(from_label) => {
                            let (r4, ts4) = spec_expect_char(ts3, seq![')']);
                            match r4 {
                                Err(e) => (Err(e), ts4),
                                Ok(u2) => {
                                    if !(ts4.len() > 0 && ts4[0] == seq!['-']) {
                                        (Err(ParseError::InvalidSyntax), ts4)
                                    } else {
                                        let ts5 = ts4.drop_first();
                                        let direction = if ts5.len() > 0 && ts5[0] == seq!['>'] {
                                            EdgeDirection::Outgoing
                                        } else if ts5.len() > 0 && ts5[0] == seq!['<'] {
                                            EdgeDirection::Incoming
                                        } else {
                                            EdgeDirection::Bidirectional
                                        };
                                        let ts6 = if ts5.len() > 0 && (ts5[0] == seq!['>'] || ts5[0]
                                            == seq!['<']) {
                                            ts5.drop_first()
                                        } else {
                                            ts5
                                        };
                                        spec_parse_relationship_tail(
                                            ts6,
                                            from_var,
                                            from_label,
                                            direction,
                                        )
                                    }
                                },
                            }
                        },
                    }
                },
            }
        },
    }
}

/// The rest of a relationship pattern, from the opening bracket on.
pub open spec fn spec_parse_relationship_tail(
    ts: Seq<Seq<char>>,
    from_var: Seq<char>,
    from_label: Option<Seq<char>>,
    direction: EdgeDirection,
) -> (Result<MatchPatternModel, ParseError>, Seq<Seq<char>>) {
    let (r1, ts1) = spec_expect_char(ts, seq!['[']);
    match r1 {
        Err(e) => (Err(e), ts1),
        Ok(u) => {
            let (r2, ts2) = spec_edge_label(ts1);
            match r2 {
                Err(e) => (Err(e), ts2),
                Ok(edge_label) => {
                    let (r3, ts3) = spec_expect_char(ts2, seq![']']);
                    match r3 {
                        Err(e) => (Err(e), ts3),
                        Ok(u2) => {
                            let ts4 = spec_consume_closing(ts3, direction);
                            let (r4, ts5) = spec_expect_char(ts4, seq!['(']);
                            match r4 {
                                Err(e) => (Err(e), ts5),
                                Ok(u3) => {
                                    let (r5, ts6) = spec_expect_identifier(ts5);
                                    match r5 {
                                        Err(e) => (Err(e), ts6),
                                        Ok(to_var) => {
                                            let (r6, ts7) = spec_opt_label(ts6);
                                            match r6 {
                                                Err(e) => (Err(e), ts7),
                                                Ok(to_label) => {
                                                    let (r7, ts8) = spec_expect_char(
                                                        ts7,
                                                        seq![')'],
                                                    );
                                                    match r7 {
                                                        Err(e) => (Err(e), ts8),
                                                        Ok(u4) => (
                                                            Ok(
                                                                MatchPatternModel::Relationship {
                                                                    from: NodePatternModel {
                                                                        variable: from_var,
                                                                        label: from_label,
                                                                    },
                                                                    edge: EdgePatternModel {
                                                                        direction,
                                                                        label: edge_label,
                                                                    },
                                                                    to: NodePatternModel {
                                                                        variable: to_var,
                                                                        label: to_label,
                                                                    },
                                                                },
                                                            ),
                                                            ts8,
                                                        ),
                                                    }
                                                },
                                            }
                                        },
                                    }
                                },
                            }
                        },
                    }
                },
            }
        },
    }
}

/// A MATCH pattern: a relationship when an edge marker occurs anywhere in
/// the remaining tokens, else a single node.
pub open spec fn spec_parse_match(ts: Seq<Seq<char>>) -> (Result<
    MatchPatternModel,
    ParseError,
>, Seq<Seq<char>>) {
    let (r1, ts1) = spec_expect_keyword(ts, kw_match());
    match r1 {
        Err(e) => (Err(e), ts1),
        Ok(u) => {
            if ts1.len() == 0 {
                (Err(ParseError::InvalidSyntax), ts1)
            } else if has_arrow(ts1) {
                spec_parse_relationship(ts1)
            } else {
                spec_parse_single_node(ts1)
            }
        },
    }
}

/// A node-creation pattern: `( var [: Label] [{ 0xHEX }] )`.
pub open spec fn spec_parse_create_node(ts: Seq<Seq<char>>) -> (Result<
    CreatePatternModel,
    ParseError,
>, Seq<Seq<char>>) {
    let (r1, ts1) = spec_expect_char(ts, seq!['(']);
    match r1 {
        Err(e) => (Err(e), ts1),
        Ok(u) => {
            let (r2, ts2) = spec_expect_identifier(ts1);
            match r2 {
                Err(e) => (Err(e), ts2),
                Ok(variable) => {
                    let (r3, ts3) = spec_opt_label(ts2);
                    match r3 {
                        Err(e) => (Err(e), ts3),
                        Ok(label) => {
                            let (r4, ts4) = spec_create_node_data(ts3);
                            match r4 {
                                Err(e) => (Err(e), ts4),
                                Ok(data) => {
                                    let (r5, ts5) = spec_expect_char(ts4, seq![')']);
                                    match r5 {
                                        Err(e) => (Err(e), ts5),
                                        Ok(u2) => (
                                            Ok(
                                                CreatePatternModel::Node {
                                                    variable,
                                                    label,
                                                    data,
                                                },
                                            ),
                                            ts5,
                                        ),
                                    }
                                },
                            }
                        },
                    }
                },
            }
        },
    }
}

/// The optional `{ 0xHEX }` payload of a node-creation pattern.
pub open spec fn spec_create_node_data(ts: Seq<Seq<char>>) -> (Result<
    Option<Seq<u8>>,
    ParseError,
>, Seq<Seq<char>>) {
    if ts.len() > 0 && ts[0] == seq!['{'] {
        let ts1 = ts.drop_first();
        if ts1.len() > 0 && starts_with_0x(ts1[0]) {
            let tok = ts1[0];
            let ts2 = ts1.drop_first();
            match spec_hex_decode(tok.skip(2)) {
                Some(bytes) => {
                    let (r, ts3) = spec_expect_char(ts2, seq!['}']);
                    match r {
                        Err(e) => (Err(e), ts3),
                        Ok(u) => (Ok(Some(bytes)), ts3),
                    }
                },
                None => (Err(ParseError::InvalidSyntax), ts2),
            }
        } else {
            (Err(ParseError::InvalidSyntax), ts1)
        }
    } else {
        (Ok(None), ts)
    }
}

/// One endpoint of an edge-creation pattern, up to and including its closing
/// parenthesis: an identifier with an optional label, or a literal id.
pub open spec fn spec_create_endpoint(ts: Seq<Seq<char>>) -> (Result<
    (Seq<char>, Option<u128>, Option<Seq<char>>),
    ParseError,
>, Seq<Seq<char>>) {
    if ts.len() == 0 {
        (Err(ParseError::UnexpectedToken), ts)
    } else {
        let tok = ts[0];
        let ts1 = ts.drop_first();
        if tok.len() > 0 && is_ident_start(tok[0]) {
            let (r1, ts2) = spec_opt_label(ts1);
            match r1 {
                Err(e) => (Err(e), ts2),
                Ok(label) => {
                    let (r2, ts3) = spec_expect_char(ts2, seq![')']);
                    match r2 {
                        Err(e) => (Err(e), ts3),
                        Ok(u) => (Ok((tok, None, label)), ts3),
                    }
                },
            }
        } else if forall|i: int| 0 <= i < tok.len() ==> is_digit(#[trigger] tok[i]) {
            match spec_parse_u128(tok) {
                Some(v) => {
                    let (r2, ts2) = spec_expect_char(ts1, seq![')']);
                    match r2 {
                        Err(e) => (Err(e), ts2),
                        Ok(u) => (Ok((Seq::empty(), Some(v), None)), ts2),
                    }
                },
                None => (Err(ParseError::InvalidSyntax), ts1),
            }
        } else {
            (Err(ParseError::InvalidSyntax), ts1)
        }
    }
}

/// The direction marker that may precede the bracketed edge label of an
/// edge-creation pattern; a following bracket leaves the direction open.
pub open spec fn spec_pre_direction(ts: Seq<Seq<char>>) -> (EdgeDirection, Seq<Seq<char>>) {
    if ts.len() > 0 && ts[0] == seq!['['] {
        (EdgeDirection::Bidirectional, ts)
    } else if ts.len() > 0 && ts[0] == seq!['>'] {
        (EdgeDirection::Outgoing, ts.drop_first())
    } else if ts.len() > 0 && ts[0] == seq!['<'] {
        (EdgeDirection::Incoming, ts.drop_first())
    } else {
        (EdgeDirection::Bidirectional, ts)
    }
}

/// The optional bracketed edge label of an edge-creation pattern.
pub open spec fn spec_create_edge_brackets(ts: Seq<Seq<char>>) -> (Result<
    Option<Seq<char>>,
    ParseError,
>, Seq<Seq<char>>) {
    if ts.len() > 0 && ts[0] == seq!['['] {
        let (r1, ts1) = spec_edge_label(ts.drop_first());
        match r1 {
            Err(e) => (Err(e), ts1),
            Ok(label) => {
                let (r2, ts2) = spec_expect_char(ts1, seq![']']);
                match r2 {
                    Err(e) => (Err(e), ts2),
                    Ok(u) => (Ok(label), ts2),
                }
            },
        }
    } else {
        (Ok(None), ts)
    }
}

/// An edge-creation pattern: two endpoints joined by an optionally labeled,
/// optionally directed edge; direction markers may stand before or after the
/// brackets, the later position winning.
pub open spec fn spec_parse_create_edge(ts: Seq<Seq<char>>) -> (Result<
    CreatePatternModel,
    ParseError,
>, Seq<Seq<char>>) {
    let (r1, ts1) = spec_expect_char(ts, seq!['(']);
    match r1 {
        Err(e) => (Err(e), ts1),
        Ok(u) => {
            let (r2, ts2) = spec_create_endpoint(ts1);
            match r2 {
                Err(e) => (Err(e), ts2),
                Ok(from_part) => {
                    let (r3, ts3) = spec_expect_char(ts2, seq!['-']);
                    match r3 {
                        Err(e) => (Err(e), ts3),
                        Ok(u2) => {
                            let (pre_direction, ts4) = spec_pre_direction(ts3);
                            let (r4, ts5) = spec_create_edge_brackets(ts4);
                            match r4 {
                                Err(e) => (Err(e), ts5),
                                Ok(edge_label) => {
                                    let (direction, ts6) = spec_create_edge_final_direction(
                                        ts5,
                                        pre_direction,
                                    );
                                    let (r5, ts7) = spec_expect_char(ts6, seq!['(']);
                                    match r5 {
                                        Err(e) => (Err(e), ts7),
                                        Ok(u3) => {
                                            let (r6, ts8) = spec_create_endpoint(ts7);
                                            match r6 {
                                                Err(e) => (Err(e), ts8),
                                                Ok(to_part) => (
                                                    Ok(
                                                        CreatePatternModel::Edge {
                                                            from: NodePatternModel {
                                                                variable: from_part.0,
                                                                label: from_part.2,
                                                            },
                                                            from_id: from_part.1,
                                                            edge: EdgePatternModel {
                                                                direction,
                                                                label: edge_label,
                                                            },
                                                            to: NodePatternModel {
                                                                variable: to_part.0,
                                                                label: to_part.2,
                                                            },
                                                            to_id: to_part.1,
                                                        },
                                                    ),
                                                    ts8,
                                                ),
                                            }
                                        },
                                    }
                                },
                            }
                        },
                    }
                },
            }
        },
    }
}

/// The direction markers after the bracketed edge label of an edge-creation
/// pattern; whichever position resolved last wins.
pub open spec fn spec_create_edge_final_direction(
    ts: Seq<Seq<char>>,
    pre_direction: EdgeDirection,
) -> (EdgeDirection, Seq<Seq<char>>) {
    if ts.len() > 0 && ts[0] == seq!['-'] {
        let ts1 = ts.drop_first();
        if ts1.len() > 0 && ts1[0] == seq!['>'] {
            (EdgeDirection::Outgoing, ts1.drop_first())
        } else if ts1.len() > 0 && ts1[0] == seq!['<'] {
            (EdgeDirection::Incoming, ts1.drop_first())
        } else {
            (EdgeDirection::Bidirectional, ts1)
        }
    } else if ts.len() > 0 && ts[0] == seq!['>'] {
        (EdgeDirection::Outgoing, ts.drop_first())
    } else if ts.len() > 0 && ts[0] == seq!['<'] {
        (EdgeDirection::Incoming, ts.drop_first())
    } else {
        (pre_direction, ts)
    }
}

/// A CREATE pattern: an edge when an edge marker occurs anywhere in the
/// remaining tokens, else a node.
pub open spec fn spec_parse_create(ts: Seq<Seq<char>>) -> (Result<
    CreatePatternModel,
    ParseError,
>, Seq<Seq<char>>) {
    let (r1, ts1) = spec_expect_keyword(ts, kw_create());
    match r1 {
        Err(e) => (Err(e), ts1),
        Ok(u) => {
            if ts1.len() == 0 {
                (Err(ParseError::InvalidSyntax), ts1)
            } else if has_arrow(ts1) {
                spec_parse_create_edge(ts1)
            } else {
                spec_parse_create_node(ts1)
            }
        },
    }
}

/// The optional WHERE clause: `var . field = value`, an id equality when the
/// field is exactly `id`, else a quoted attribute equality.
pub open spec fn spec_parse_where(ts: Seq<Seq<char>>) -> (Result<
    Option<WhereClauseModel>,
    ParseError,
>, Seq<Seq<char>>) {
    if ts.len() == 0 || !is_kw(ts[0], kw_where()) {
        (Ok(None), ts)
    } else {
        let ts1 = ts.drop_first();
        let (r1, ts2) = spec_expect_identifier(ts1);
        match r1 {
            Err(e) => (Err(e), ts2),
            Ok(variable) => {
                let (r2, ts3) = spec_expect_char(ts2, seq!['.']);
                match r2 {
                    Err(e) => (Err(e), ts3),
                    Ok(u) => {
                        let (r3, ts4) = spec_expect_identifier(ts3);
                        match r3 {
                            Err(e) => (Err(e), ts4),
                            Ok(field) => {
                                let (r4, ts5) = spec_expect_char(ts4, seq!['=']);
                                match r4 {
                                    Err(e) => (Err(e), ts5),
                                    Ok(u2) => {
                                        if field == seq!['i', 'd'] {
                                            let (r5, ts6) = spec_expect_number(ts5);
                                            match r5 {
                                                Err(e) => (Err(e), ts6),
                                                Ok(num) => (
                                                    Ok(
                                                        Some(
                                                            WhereClauseModel::NodeIdEq {
                                                                variable,
                                                                value: num as u128,
                                                            },
                                                        ),
                                                    ),
                                                    ts6,
                                                ),
                                            }
                                        } else {
                                            let (r5, ts6) = spec_expect_string(ts5);
                                            match r5 {
                                                Err(e) => (Err(e), ts6),
                                                Ok(value) => (
                                                    Ok(
                                                        Some(
                                                            WhereClauseModel::NodeAttrEq {
                                                                variable,
                                                                attr: field,
                                                                value,
                                                            },
                                                        ),
                                                    ),
                                                    ts6,
                                                ),
                                            }
                                        }
                                    },
                                }
                            },
                        }
                    },
                }
            },
        }
    }
}

/// The required RETURN clause: `*`, a variable, or `var . attr`.
pub open spec fn spec_parse_return(ts: Seq<Seq<char>>) -> (Result<
    ReturnClauseModel,
    ParseError,
>, Seq<Seq<char>>) {
    let (r1, ts1) = spec_expect_keyword(ts, kw_return());
    match r1 {
        Err(e) => (Err(e), ts1),
        Ok(u) => {
            if ts1.len() > 0 && ts1[0] == seq!['*'] {
                (Ok(ReturnClauseModel::All), ts1.drop_first())
            } else {
                let (r2, ts2) = spec_expect_identifier(ts1);
                match r2 {
                    Err(e) => (Err(e), ts2),
                    Ok(variable) => {
                        if ts2.len() > 0 && ts2[0] == seq!['.'] {
                            let (r3, ts3) = spec_expect_identifier(ts2.drop_first());
                            match r3 {
                                Err(e) => (Err(e), ts3),
                                Ok(attr) => (
                                    Ok(ReturnClauseModel::NodeAttr { variable, attr }),
                                    ts3,
                                ),
                            }
                        } else {
                            (Ok(ReturnClauseModel::NodeId { variable }), ts2)
                        }
                    },
                }
            }
        },
    }
}

/// The optional LIMIT clause: absent, or the keyword and a number.
pub open spec fn spec_parse_limit(ts: Seq<Seq<char>>) -> (Result<
    Option<usize>,
    ParseError,
>, Seq<Seq<char>>) {
    if ts.len() == 0 || !is_kw(ts[0], kw_limit()) {
        (Ok(None), ts)
    } else {
        let (r, ts1) = spec_expect_number(ts.drop_first());
        match r {
            Err(e) => (Err(e), ts1),
            Ok(v) => (Ok(Some(v)), ts1),
        }
    }
}

/// A whole query text: tokenize, dispatch on the leading keyword, demand a
/// LIMIT on MATCH queries, and reject leftover tokens.
pub open spec fn spec_parse(input: Seq<char>) -> Result<CypherQueryModel, ParseError> {
    let ts = spec_tokenize(input);
    if ts.len() == 0 {
        Err(ParseError::InvalidSyntax)
    } else if is_kw(ts[0], kw_create()) {
        let (r, rest) = spec_parse_create(ts);
        match r {
            Err(e) => Err(e),
            Ok(cp) => if rest.len() == 0 {
                Ok(CypherQueryModel::Create { create_pattern: cp })
            } else {
                Err(ParseError::InvalidSyntax)
            },
        }
    } else if is_kw(ts[0], kw_match()) {
        let (rm, ts1) = spec_parse_match(ts);
        match rm {
            Err(e) => Err(e),
            Ok(mp) => {
                let (rw, ts2) = spec_parse_where(ts1);
                match rw {
                    Err(e) => Err(e),
                    Ok(wc) => {
                        let (rr, ts3) = spec_parse_return(ts2);
                        match rr {
                            Err(e) => Err(e),
                            Ok(rc) => {
                                let (rl, ts4) = spec_parse_limit(ts3);
                                match rl {
                                    Err(e) => Err(e),
                                    Ok(lim) => {
                                        if lim is None {
                                            Err(ParseError::MissingLimit)
                                        } else if ts4.len() != 0 {
                                            Err(ParseError::InvalidSyntax)
                                        } else {
                                            Ok(
                                                CypherQueryModel::Match {
                                                    match_pattern: mp,
                                                    where_clause: wc,
                                                    return_clause: rc,
                                                    limit: lim,
                                                },
                                            )
                                        }
                                    },
                                }
                            },
                        }
                    },
                }
            },
        }
    } else {
        Err(ParseError::InvalidSyntax)
    }
}

/// A token starting a hex payload: `0x` or `0X`.
pub open spec fn starts_with_0x(s: Seq<char>) -> bool {
    s.len() >= 2 && s[0] == '0' && (s[1] == 'x' || s[1] == 'X')
}

/// Whether the token starts with `0x` or `0X`.
fn token_starts_0x(t: &String) -> (r: bool)
    ensures
        r == starts_with_0x(t@),
{
    let s = t.as_str();
    let len = s.unicode_len();
    if len < 2 {
        return false;
    }
    let c0 = s.get_char(0);
    let c1 = s.get_char(1);
    c0 == '0' && (c1 == 'x' || c1 == 'X')
}

proof fn lemma_toks_pop(ts: Seq<String>)
    requires
        ts.len() > 0,
    ensures
        toks(ts.remove(0)) == toks(ts).drop_first(),
{
    assert(toks(ts.remove(0)) =~= toks(ts).drop_first());
}

/// Consume the head token, which must match `keyword` case-insensitively.
pub fn expect_keyword(tokens: &mut Vec<String>, keyword: &str) -> (r: Result<(), ParseError>)
    ensures
        ({
            let (res, rest) = spec_expect_keyword(toks(old(tokens)@), keyword@);
            &&& toks(final(tokens)@) == rest
            &&& (match (r, res) {
                (Ok(u), Ok(v)) => true,
                (Err(e), Err(em)) => e == em,
                _ => false,
            })
        }),
{
    if tokens.len() == 0 {
        return Err(ParseError::UnexpectedToken);
    }
    if !token_is_kw(&tokens[0], keyword) {
        return Err(ParseError::UnexpectedToken);
    }
    tokens.remove(0);
    proof {
        lemma_toks_pop(old(tokens)@);
    }
    Ok(())
}

/// Consume the head token, which must equal `ch` exactly.
pub fn expect_char(tokens: &mut Vec<String>, ch: &str) -> (r: Result<(), ParseError>)
    ensures
        ({
            let (res, rest) = spec_expect_char(toks(old(tokens)@), ch@);
            &&& toks(final(tokens)@) == rest
            &&& (match (r, res) {
                (Ok(u), Ok(v)) => true,
                (Err(e), Err(em)) => e == em,
                _ => false,
            })
        }),
{
    if tokens.len() == 0 {
        return Err(ParseError::UnexpectedToken);
    }
    if !token_eq_str(&tokens[0], ch) {
        return Err(ParseError::UnexpectedToken);
    }
    tokens.remove(0);
    proof {
        lemma_toks_pop(old(tokens)@);
    }
    Ok(())
}

/// Consume the head token, which must start like an identifier.
pub fn expect_identifier(tokens: &mut Vec<String>) -> (r: Result<String, ParseError>)
    ensures
        ({
            let (res, rest) = spec_expect_identifier(toks(old(tokens)@));
            &&& toks(final(tokens)@) == rest
            &&& (match (r, res) {
                (Ok(s), Ok(m)) => s@ == m,
                (Err(e), Err(em)) => e == em,
                _ => false,
            })
        }),
{
    if tokens.len() == 0 {
        return Err(ParseError::UnexpectedToken);
    }
    let token = tokens.remove(0);
    proof {
        lemma_toks_pop(old(tokens)@);
    }
    if ident_start(&token) {
        Ok(token)
    } else {
        Err(ParseError::UnexpectedToken)
    }
}

/// Consume the head token, which must be an unsigned decimal number.
pub fn expect_number(tokens: &mut Vec<String>) -> (r: Result<usize, ParseError>)
    ensures
        ({
            let (res, rest) = spec_expect_number(toks(old(tokens)@));
            &&& toks(final(tokens)@) == rest
            &&& (match (r, res) {
                (Ok(v), Ok(m)) => v == m,
                (Err(e), Err(em)) => e == em,
                _ => false,
            })
        }),
{
    if tokens.len() == 0 {
        return Err(ParseError::UnexpectedToken);
    }
    let token = tokens.remove(0);
    proof {
        lemma_toks_pop(old(tokens)@);
    }
    match parse_usize_token(&token) {
        Some(v) => Ok(v),
        None => Err(ParseError::InvalidSyntax),
    }
}

/// Consume the head token as a string value, shedding any quote characters
/// left at its edges.
pub fn expect_string(tokens: &mut Vec<String>) -> (r: Result<String, ParseError>)
    ensures
        ({
            let (res, rest) = spec_expect_string(toks(old(tokens)@));
            &&& toks(final(tokens)@) == rest
            &&& (match (r, res) {
                (Ok(s), Ok(m)) => s@ == m,
                (Err(e), Err(em)) => e == em,
                _ => false,
            })
        }),
{
    if tokens.len() == 0 {
        return Err(ParseError::UnexpectedToken);
    }
    let token = tokens.remove(0);
    proof {
        lemma_toks_pop(old(tokens)@);
    }
    let t1 = str_trim_char(token.as_str(), '\'');
    let t2 = str_trim_char(t1.as_str(), '"');
    Ok(t2)
}

/// The head token, or the empty string when none is left.
pub fn peek_token<'a>(tokens: &'a Vec<String>) -> (r: &'a str)
    ensures
        tokens@.len() > 0 ==> r@ == tokens@[0]@,
        tokens@.len() == 0 ==> r@ == Seq::<char>::empty(),
{
    if tokens.len() == 0 {
        let empty = "";
        proof {
            reveal_strlit("");
            assert(empty@ =~= Seq::<char>::empty());
        }
        empty
    } else {
        tokens[0].as_str()
    }
}

/// Whether the head token equals `s` exactly.
fn peek_is(tokens: &Vec<String>, s: &str) -> (r: bool)
    ensures
        r == (toks(tokens@).len() > 0 && toks(tokens@)[0] == s@),
{
    if tokens.len() == 0 {
        false
    } else {
        token_eq_str(&tokens[0], s)
    }
}

/// Whether the head token matches the upper-case keyword `kw`,
/// case-insensitively.
fn peek_is_kw(tokens: &Vec<String>, kw: &str) -> (r: bool)
    ensures
        r == (toks(tokens@).len() > 0 && is_kw(toks(tokens@)[0], kw@)),
{
    if tokens.len() == 0 {
        false
    } else {
        token_is_kw(&tokens[0], kw)
    }
}

/// Relies on String::push: appends one character at the end of the string.
#[verifier::external_body]
fn push_char(s: &mut String, c: char)
    ensures
        final(s)@ == old(s)@.push(c),
{
    s.push(c);
}

/// Split a query text into tokens: whitespace separates, the punctuation
/// characters stand alone, quotes toggle a string mode that accumulates
/// every character literally. Tokenization itself never fails.
pub fn tokenize(input: &str) -> (r: Result<Vec<String>, ParseError>)
    ensures
        r matches Ok(ts) && toks(ts@) == spec_tokenize(input@),
{
    let mut tokens: Vec<String> = Vec::new();
    let mut current = String::new();
    let mut in_string = false;

    let n = input.unicode_len();
    proof {
        assert(input@.skip(0) =~= input@);
        assert(toks(tokens@) =~= Seq::<Seq<char>>::empty());
    }
    for i in 0..n
        invariant
            n == input@.len(),
            tokenize_from(input@.skip(i as int), current@, in_string, toks(tokens@))
                == spec_tokenize(input@),
    {
        let c = input.get_char(i);
        proof {
            assert(input@.skip(i as int)[0] == c);
            assert(input@.skip(i as int).drop_first() =~= input@.skip(i as int + 1));
        }
        let ghost pre_toks = toks(tokens@);
        if in_string && !(c == '\'' || c == '"') {
            push_char(&mut current, c);
        } else if c == ' ' || c == '\t' || c == '\n' || c == '\r' {
            if !current.as_str().is_empty() {
                tokens.push(current);
                current = String::new();
                proof {
                    assert(toks(tokens@) =~= pre_toks.push(tokens@[tokens@.len() - 1]@));
                }
            }
        } else if c == '(' || c == ')' || c == '[' || c == ']' || c == '-' || c == '>' || c == '<'
            || c == ':' || c == '=' || c == ',' || c == '{' || c == '}' || c == '.' {
            if !current.as_str().is_empty() {
                tokens.push(current);
                current = String::new();
                proof {
                    assert(toks(tokens@) =~= pre_toks.push(tokens@[tokens@.len() - 1]@));
                }
            }
            let ghost mid_toks = toks(tokens@);
            let mut punct = String::new();
            push_char(&mut punct, c);
            tokens.push(punct);
            proof {
                assert(tokens@[tokens@.len() - 1]@ =~= seq![c]);
                assert(toks(tokens@) =~= mid_toks.push(seq![c]));
                assert(current@ =~= Seq::<char>::empty());
            }
        } else if c == '\'' || c == '"' {
            if in_string {
                tokens.push(current);
                current = String::new();
                in_string = false;
                proof {
                    assert(toks(tokens@) =~= pre_toks.push(tokens@[tokens@.len() - 1]@));
                }
            } else {
                in_string = true;
            }
        } else {
            push_char(&mut current, c);
        }
    }
    proof {
        assert(input@.skip(n as int) =~= Seq::<char>::empty());
    }
    if !current.as_str().is_empty() {
        let ghost pre_toks = toks(tokens@);
        tokens.push(current);
        proof {
            assert(toks(tokens@) =~= pre_toks.push(tokens@[tokens@.len() - 1]@));
        }
    }
    Ok(tokens)
}


/// Whether any remaining token reads as an edge marker.
fn tokens_have_arrow(tokens: &Vec<String>) -> (r: bool)
    ensures
        r == has_arrow(toks(tokens@)),
{
    let n = tokens.len();
    for i in 0..n
        invariant
            n == tokens@.len(),
            forall|j: int| 0 <= j < i ==> !arrow_token(#[trigger] toks(tokens@)[j]),
    {
        proof {
            reveal_strlit("->");
            reveal_strlit("<-");
            reveal_strlit("-");
            assert(("->")@ =~= seq!['-', '>']);
            assert(("<-")@ =~= seq!['<', '-']);
            assert(("-")@ =~= seq!['-']);
        }
        if token_eq_str(&tokens[i], "->") || token_eq_str(&tokens[i], "<-") || token_eq_str(
            &tokens[i],
            "-",
        ) {
            proof {
                assert(arrow_token(toks(tokens@)[i as int]));
            }
            return true;
        }
    }
    false
}

/// Parse an optional `: Label` suffix after a variable.
fn parse_opt_label(tokens: &mut Vec<String>) -> (r: Result<Option<String>, ParseError>)
    ensures
        ({
            let (res, rest) = spec_opt_label(toks(old(tokens)@));
            &&& toks(final(tokens)@) == rest
            &&& (match (r, res) {
                (Ok(o), Ok(m)) => opt_str_view(o) == m,
                (Err(e), Err(em)) => e == em,
                _ => false,
            })
        }),
{
    proof {
        reveal_strlit(":");
        assert((":")@ =~= seq![':']);
    }
    if peek_is(tokens, ":") {
        let ghost pre = tokens@;
        tokens.remove(0);
        proof {
            lemma_toks_pop(pre);
        }
        match expect_identifier(tokens) {
            Ok(l) => Ok(Some(l)),
            Err(e) => Err(e),
        }
    } else {
        Ok(None)
    }
}

/// Parse the optional `: Label` inside an already-open bracket pair.
fn parse_edge_label(tokens: &mut Vec<String>) -> (r: Result<Option<String>, ParseError>)
    ensures
        ({
            let (res, rest) = spec_edge_label(toks(old(tokens)@));
            &&& toks(final(tokens)@) == rest
            &&& (match (r, res) {
                (Ok(o), Ok(m)) => opt_str_view(o) == m,
                (Err(e), Err(em)) => e == em,
                _ => false,
            })
        }),
{
    proof {
        reveal_strlit(":");
        reveal_strlit("]");
        assert((":")@ =~= seq![':']);
        assert(("]")@ =~= seq![']']);
    }
    if peek_is(tokens, ":") {
        let ghost pre = tokens@;
        tokens.remove(0);
        proof {
            lemma_toks_pop(pre);
        }
        if peek_is(tokens, "]") {
            Ok(None)
        } else {
            match expect_identifier(tokens) {
                Ok(l) => Ok(Some(l)),
                Err(e) => Err(e),
            }
        }
    } else {
        Ok(None)
    }
}

/// Parse a single-node pattern: `( var [: Label] )`.
pub fn parse_single_node_pattern(tokens: &mut Vec<String>) -> (r: Result<
    MatchPattern,
    ParseError,
>)
    ensures
        ({
            let (res, rest) = spec_parse_single_node(toks(old(tokens)@));
            &&& toks(final(tokens)@) == rest
            &&& (match (r, res) {
                (Ok(p), Ok(m)) => p@ == m,
                (Err(e), Err(em)) => e == em,
                _ => false,
            })
        }),
{
    proof {
        reveal_strlit("(");
        reveal_strlit(")");
        assert(("(")@ =~= seq!['(']);
        assert((")")@ =~= seq![')']);
    }
    match expect_char(tokens, "(") {
        Ok(u) => {},
        Err(e) => {
            return Err(e);
        },
    }
    let variable = match expect_identifier(tokens) {
        Ok(v) => v,
        Err(e) => {
            return Err(e);
        },
    };
    let label = match parse_opt_label(tokens) {
        Ok(l) => l,
        Err(e) => {
            return Err(e);
        },
    };
    match expect_char(tokens, ")") {
        Ok(u) => {},
        Err(e) => {
            return Err(e);
        },
    }
    Ok(MatchPattern::SingleNode { variable, label })
}

/// Parse a relationship pattern: two node endpoints joined by a directed,
/// bracketed edge.
#[verifier::rlimit(100)]
pub fn parse_relationship_pattern(tokens: &mut Vec<String>) -> (r: Result<
    MatchPattern,
    ParseError,
>)
    ensures
        ({
            let (res, rest) = spec_parse_relationship(toks(old(tokens)@));
            &&& toks(final(tokens)@) == rest
            &&& (match (r, res) {
                (Ok(p), Ok(m)) => p@ == m,
                (Err(e), Err(em)) => e == em,
                _ => false,
            })
        }),
{
    proof {
        reveal_strlit("(");
        reveal_strlit(")");
        reveal_strlit("-");
        reveal_strlit(">");
        reveal_strlit("<");
        reveal_strlit("[");
        reveal_strlit("]");
        assert(("(")@ =~= seq!['(']);
        assert((")")@ =~= seq![')']);
        assert(("-")@ =~= seq!['-']);
        assert((">")@ =~= seq!['>']);
        assert(("<")@ =~= seq!['<']);
        assert(("[")@ =~= seq!['[']);
        assert(("]")@ =~= seq![']']);
    }
    match expect_char(tokens, "(") {
        Ok(u) => {},
        Err(e) => {
            return Err(e);
        },
    }
    let from_var = match expect_identifier(tokens) {
        Ok(v) => v,
        Err(e) => {
            return Err(e);
        },
    };
    let from_label = match parse_opt_label(tokens) {
        Ok(l) => l,
        Err(e) => {
            return Err(e);
        },
    };
    match expect_char(tokens, ")") {
        Ok(u) => {},
        Err(e) => {
            return Err(e);
        },
    }
    if !peek_is(tokens, "-") {
        return Err(ParseError::InvalidSyntax);
    }
    let ghost pre = tokens@;
    tokens.remove(0);
    proof {
        lemma_toks_pop(pre);
    }
    let direction = if peek_is(tokens, ">") {
        let ghost pre2 = tokens@;
        tokens.remove(0);
        proof {
            lemma_toks_pop(pre2);
        }
        EdgeDirection::Outgoing
    } else if peek_is(tokens, "<") {
        let ghost pre2 = tokens@;
        tokens.remove(0);
        proof {
            lemma_toks_pop(pre2);
        }
        EdgeDirection::Incoming
    } else {
        EdgeDirection::Bidirectional
    };
    match expect_char(tokens, "[") {
        Ok(u) => {},
        Err(e) => {
            return Err(e);
        },
    }
    let edge_label = match parse_edge_label(tokens) {
        Ok(l) => l,
        Err(e) => {
            return Err(e);
        },
    };
    match expect_char(tokens, "]") {
        Ok(u) => {},
        Err(e) => {
            return Err(e);
        },
    }
    match direction {
        EdgeDirection::Outgoing => {
            if peek_is(tokens, "-") {
                let ghost p1 = tokens@;
                tokens.remove(0);
                proof {
                    lemma_toks_pop(p1);
                }
            }
            if peek_is(tokens, ">") {
                let ghost p1 = tokens@;
                tokens.remove(0);
                proof {
                    lemma_toks_pop(p1);
                }
            }
        },
        EdgeDirection::Incoming => {
            if peek_is(tokens, "<") {
                let ghost p1 = tokens@;
                tokens.remove(0);
                proof {
                    lemma_toks_pop(p1);
                }
            }
            if peek_is(tokens, "-") {
                let ghost p1 = tokens@;
                tokens.remove(0);
                proof {
                    lemma_toks_pop(p1);
                }
            }
        },
        EdgeDirection::Bidirectional => {
            if peek_is(tokens, "-") {
                let ghost p1 = tokens@;
                tokens.remove(0);
                proof {
                    lemma_toks_pop(p1);
                }
            }
        },
    }
    match expect_char(tokens, "(") {
        Ok(u) => {},
        Err(e) => {
            return Err(e);
        },
    }
    let to_var = match expect_identifier(tokens) {
        Ok(v) => v,
        Err(e) => {
            return Err(e);
        },
    };
    let to_label = match parse_opt_label(tokens) {
        Ok(l) => l,
        Err(e) => {
            return Err(e);
        },
    };
    match expect_char(tokens, ")") {
        Ok(u) => {},
        Err(e) => {
            return Err(e);
        },
    }
    Ok(MatchPattern::Relationship {
        from: NodePattern { variable: from_var, label: from_label },
        edge: EdgePattern { direction, label: edge_label },
        to: NodePattern { variable: to_var, label: to_label },
    })
}

/// Parse a MATCH pattern, dispatching on the presence of an edge marker.
pub fn parse_match(tokens: &mut Vec<String>) -> (r: Result<MatchPattern, ParseError>)
    ensures
        ({
            let (res, rest) = spec_parse_match(toks(old(tokens)@));
            &&& toks(final(tokens)@) == rest
            &&& (match (r, res) {
                (Ok(p), Ok(m)) => p@ == m,
                (Err(e), Err(em)) => e == em,
                _ => false,
            })
        }),
{
    proof {
        reveal_strlit("MATCH");
        assert(("MATCH")@ =~= kw_match());
    }
    match expect_keyword(tokens, "MATCH") {
        Ok(u) => {},
        Err(e) => {
            return Err(e);
        },
    }
    if tokens.len() == 0 {
        return Err(ParseError::InvalidSyntax);
    }
    if tokens_have_arrow(tokens) {
        parse_relationship_pattern(tokens)
    } else {
        parse_single_node_pattern(tokens)
    }
}

/// The string with its first two characters removed.
fn strip_two(t: &String) -> (r: String)
    requires
        t@.len() >= 2,
    ensures
        r@ == t@.skip(2),
{
    let len = t.as_str().unicode_len();
    let out = t.as_str().substring_char(2, len).to_owned();
    proof {
        assert(t@.subrange(2, len as int) =~= t@.skip(2));
    }
    out
}

/// Parse the optional `{ 0xHEX }` payload of a node-creation pattern.
fn parse_node_data(tokens: &mut Vec<String>) -> (r: Result<Option<Vec<u8>>, ParseError>)
    ensures
        ({
            let (res, rest) = spec_create_node_data(toks(old(tokens)@));
            &&& toks(final(tokens)@) == rest
            &&& (match (r, res) {
                (Ok(o), Ok(m)) => (match (o, m) {
                    (Some(b), Some(bm)) => b@ == bm,
                    (None, None) => true,
                    _ => false,
                }),
                (Err(e), Err(em)) => e == em,
                _ => false,
            })
        }),
{
    proof {
        reveal_strlit("{");
        reveal_strlit("}");
        assert(("{")@ =~= seq!['{']);
        assert(("}")@ =~= seq!['}']);
    }
    if peek_is(tokens, "{") {
        let ghost pre = tokens@;
        tokens.remove(0);
        proof {
            lemma_toks_pop(pre);
        }
        let ok_prefix = if tokens.len() == 0 {
            false
        } else {
            token_starts_0x(&tokens[0])
        };
        if ok_prefix {
            let ghost pre2 = tokens@;
            let hex_tok = tokens.remove(0);
            proof {
                lemma_toks_pop(pre2);
            }
            let stripped = strip_two(&hex_tok);
            match parse_hex_string(stripped.as_str()) {
                Ok(bytes) => {
                    match expect_char(tokens, "}") {
                        Ok(u) => {},
                        Err(e) => {
                            return Err(e);
                        },
                    }
                    Ok(Some(bytes))
                },
                Err(e) => Err(ParseError::InvalidSyntax),
            }
        } else {
            Err(ParseError::InvalidSyntax)
        }
    } else {
        Ok(None)
    }
}

/// Parse a node-creation pattern: `( var [: Label] [{ 0xHEX }] )`.
pub fn parse_create_node_pattern(tokens: &mut Vec<String>) -> (r: Result<
    CreatePattern,
    ParseError,
>)
    ensures
        ({
            let (res, rest) = spec_parse_create_node(toks(old(tokens)@));
            &&& toks(final(tokens)@) == rest
            &&& (match (r, res) {
                (Ok(p), Ok(m)) => p@ == m,
                (Err(e), Err(em)) => e == em,
                _ => false,
            })
        }),
{
    proof {
        reveal_strlit("(");
        reveal_strlit(")");
        assert(("(")@ =~= seq!['(']);
        assert((")")@ =~= seq![')']);
    }
    match expect_char(tokens, "(") {
        Ok(u) => {},
        Err(e) => {
            return Err(e);
        },
    }
    let variable = match expect_identifier(tokens) {
        Ok(v) => v,
        Err(e) => {
            return Err(e);
        },
    };
    let label = match parse_opt_label(tokens) {
        Ok(l) => l,
        Err(e) => {
            return Err(e);
        },
    };
    let data = match parse_node_data(tokens) {
        Ok(d) => d,
        Err(e) => {
            return Err(e);
        },
    };
    match expect_char(tokens, ")") {
        Ok(u) => {},
        Err(e) => {
            return Err(e);
        },
    }
    Ok(CreatePattern::Node { variable, label, data })
}

/// Parse one endpoint of an edge-creation pattern, up to its closing
/// parenthesis: an identifier with an optional label, or a literal id.
fn parse_create_endpoint(tokens: &mut Vec<String>) -> (r: Result<
    (String, Option<u128>, Option<String>),
    ParseError,
>)
    ensures
        ({
            let (res, rest) = spec_create_endpoint(toks(old(tokens)@));
            &&& toks(final(tokens)@) == rest
            &&& (match (r, res) {
                (Ok(p), Ok(m)) => p.0@ == m.0 && p.1 == m.1 && opt_str_view(p.2) == m.2,
                (Err(e), Err(em)) => e == em,
                _ => false,
            })
        }),
{
    proof {
        reveal_strlit(")");
        assert((")")@ =~= seq![')']);
    }
    if tokens.len() == 0 {
        return Err(ParseError::UnexpectedToken);
    }
    let ghost pre = tokens@;
    let tok = tokens.remove(0);
    proof {
        lemma_toks_pop(pre);
    }
    if ident_start(&tok) {
        let label = match parse_opt_label(tokens) {
            Ok(l) => l,
            Err(e) => {
                return Err(e);
            },
        };
        match expect_char(tokens, ")") {
            Ok(u) => {},
            Err(e) => {
                return Err(e);
            },
        }
        Ok((tok, None, label))
    } else if all_digits(&tok) {
        match parse_u128_token(&tok) {
            Some(v) => {
                match expect_char(tokens, ")") {
                    Ok(u) => {},
                    Err(e) => {
                        return Err(e);
                    },
                }
                Ok((String::new(), Some(v), None))
            },
            None => Err(ParseError::InvalidSyntax),
        }
    } else {
        Err(ParseError::InvalidSyntax)
    }
}

/// Parse the direction marker that may precede the bracketed edge label.
fn parse_pre_direction(tokens: &mut Vec<String>) -> (r: EdgeDirection)
    ensures
        ({
            let (d, rest) = spec_pre_direction(toks(old(tokens)@));
            &&& toks(final(tokens)@) == rest
            &&& r == d
        }),
{
    proof {
        reveal_strlit("[");
        reveal_strlit(">");
        reveal_strlit("<");
        assert(("[")@ =~= seq!['[']);
        assert((">")@ =~= seq!['>']);
        assert(("<")@ =~= seq!['<']);
    }
    if peek_is(tokens, "[") {
        EdgeDirection::Bidirectional
    } else if peek_is(tokens, ">") {
        let ghost p1 = tokens@;
        tokens.remove(0);
        proof {
            lemma_toks_pop(p1);
        }
        EdgeDirection::Outgoing
    } else if peek_is(tokens, "<") {
        let ghost p1 = tokens@;
        tokens.remove(0);
        proof {
            lemma_toks_pop(p1);
        }
        EdgeDirection::Incoming
    } else {
        EdgeDirection::Bidirectional
    }
}

/// Parse the optional bracketed edge label of an edge-creation pattern.
fn parse_create_edge_brackets(tokens: &mut Vec<String>) -> (r: Result<Option<String>, ParseError>)
    ensures
        ({
            let (res, rest) = spec_create_edge_brackets(toks(old(tokens)@));
            &&& toks(final(tokens)@) == rest
            &&& (match (r, res) {
                (Ok(o), Ok(m)) => opt_str_view(o) == m,
                (Err(e), Err(em)) => e == em,
                _ => false,
            })
        }),
{
    proof {
        reveal_strlit("[");
        reveal_strlit("]");
        assert(("[")@ =~= seq!['[']);
        assert(("]")@ =~= seq![']']);
    }
    if peek_is(tokens, "[") {
        let ghost p1 = tokens@;
        tokens.remove(0);
        proof {
            lemma_toks_pop(p1);
        }
        let label = match parse_edge_label(tokens) {
            Ok(l) => l,
            Err(e) => {
                return Err(e);
            },
        };
        match expect_char(tokens, "]") {
            Ok(u) => {},
            Err(e) => {
                return Err(e);
            },
        }
        Ok(label)
    } else {
        Ok(None)
    }
}

/// Parse the direction markers after the bracketed edge label; whichever
/// position resolved last wins.
fn parse_final_direction(tokens: &mut Vec<String>, pre_direction: EdgeDirection) -> (r:
    EdgeDirection)
    ensures
        ({
            let (d, rest) = spec_create_edge_final_direction(toks(old(tokens)@), pre_direction);
            &&& toks(final(tokens)@) == rest
            &&& r == d
        }),
{
    proof {
        reveal_strlit("-");
        reveal_strlit(">");
        reveal_strlit("<");
        assert(("-")@ =~= seq!['-']);
        assert((">")@ =~= seq!['>']);
        assert(("<")@ =~= seq!['<']);
    }
    if peek_is(tokens, "-") {
        let ghost p1 = tokens@;
        tokens.remove(0);
        proof {
            lemma_toks_pop(p1);
        }
        if peek_is(tokens, ">") {
            let ghost p2 = tokens@;
            tokens.remove(0);
            proof {
                lemma_toks_pop(p2);
            }
            EdgeDirection::Outgoing
        } else if peek_is(tokens, "<") {
            let ghost p2 = tokens@;
            tokens.remove(0);
            proof {
                lemma_toks_pop(p2);
            }
            EdgeDirection::Incoming
        } else {
            EdgeDirection::Bidirectional
        }
    } else if peek_is(tokens, ">") {
        let ghost p1 = tokens@;
        tokens.remove(0);
        proof {
            lemma_toks_pop(p1);
        }
        EdgeDirection::Outgoing
    } else if peek_is(tokens, "<") {
        let ghost p1 = tokens@;
        tokens.remove(0);
        proof {
            lemma_toks_pop(p1);
        }
        EdgeDirection::Incoming
    } else {
        pre_direction
    }
}

/// Parse an edge-creation pattern: two endpoints joined by an optionally
/// labeled, optionally directed edge.
#[verifier::rlimit(100)]
pub fn parse_create_edge_pattern(tokens: &mut Vec<String>) -> (r: Result<
    CreatePattern,
    ParseError,
>)
    ensures
        ({
            let (res, rest) = spec_parse_create_edge(toks(old(tokens)@));
            &&& toks(final(tokens)@) == rest
            &&& (match (r, res) {
                (Ok(p), Ok(m)) => p@ == m,
                (Err(e), Err(em)) => e == em,
                _ => false,
            })
        }),
{
    proof {
        reveal_strlit("(");
        reveal_strlit("-");
        assert(("(")@ =~= seq!['(']);
        assert(("-")@ =~= seq!['-']);
    }
    match expect_char(tokens, "(") {
        Ok(u) => {},
        Err(e) => {
            return Err(e);
        },
    }
    let from_part = match parse_create_endpoint(tokens) {
        Ok(p) => p,
        Err(e) => {
            return Err(e);
        },
    };
    match expect_char(tokens, "-") {
        Ok(u) => {},
        Err(e) => {
            return Err(e);
        },
    }
    let pre_direction = parse_pre_direction(tokens);
    let edge_label = match parse_create_edge_brackets(tokens) {
        Ok(l) => l,
        Err(e) => {
            return Err(e);
        },
    };
    let final_direction = parse_final_direction(tokens, pre_direction);
    match expect_char(tokens, "(") {
        Ok(u) => {},
        Err(e) => {
            return Err(e);
        },
    }
    let to_part = match parse_create_endpoint(tokens) {
        Ok(p) => p,
        Err(e) => {
            return Err(e);
        },
    };
    Ok(CreatePattern::Edge {
        from: NodePattern { variable: from_part.0, label: from_part.2 },
        from_id: from_part.1,
        edge: EdgePattern { direction: final_direction, label: edge_label },
        to: NodePattern { variable: to_part.0, label: to_part.2 },
        to_id: to_part.1,
    })
}

/// Parse a CREATE pattern, dispatching on the presence of an edge marker.
pub fn parse_create(tokens: &mut Vec<String>) -> (r: Result<CreatePattern, ParseError>)
    ensures
        ({
            let (res, rest) = spec_parse_create(toks(old(tokens)@));
            &&& toks(final(tokens)@) == rest
            &&& (match (r, res) {
                (Ok(p), Ok(m)) => p@ == m,
                (Err(e), Err(em)) => e == em,
                _ => false,
            })
        }),
{
    proof {
        reveal_strlit("CREATE");
        assert(("CREATE")@ =~= kw_create());
    }
    match expect_keyword(tokens, "CREATE") {
        Ok(u) => {},
        Err(e) => {
            return Err(e);
        },
    }
    if tokens.len() == 0 {
        return Err(ParseError::InvalidSyntax);
    }
    if tokens_have_arrow(tokens) {
        parse_create_edge_pattern(tokens)
    } else {
        parse_create_node_pattern(tokens)
    }
}

/// Parse the optional WHERE clause.
pub fn parse_where(tokens: &mut Vec<String>) -> (r: Result<Option<WhereClause>, ParseError>)
    ensures
        ({
            let (res, rest) = spec_parse_where(toks(old(tokens)@));
            &&& toks(final(tokens)@) == rest
            &&& (match (r, res) {
                (Ok(o), Ok(m)) => opt_where_view(o) == m,
                (Err(e), Err(em)) => e == em,
                _ => false,
            })
        }),
{
    proof {
        reveal_strlit("WHERE");
        reveal_strlit(".");
        reveal_strlit("=");
        reveal_strlit("id");
        assert(("WHERE")@ =~= kw_where());
        assert((".")@ =~= seq!['.']);
        assert(("=")@ =~= seq!['=']);
        assert(("id")@ =~= seq!['i', 'd']);
    }
    if !peek_is_kw(tokens, "WHERE") {
        return Ok(None);
    }
    let ghost pre = tokens@;
    tokens.remove(0);
    proof {
        lemma_toks_pop(pre);
    }
    let variable = match expect_identifier(tokens) {
        Ok(v) => v,
        Err(e) => {
            return Err(e);
        },
    };
    match expect_char(tokens, ".") {
        Ok(u) => {},
        Err(e) => {
            return Err(e);
        },
    }
    let field = match expect_identifier(tokens) {
        Ok(f) => f,
        Err(e) => {
            return Err(e);
        },
    };
    match expect_char(tokens, "=") {
        Ok(u) => {},
        Err(e) => {
            return Err(e);
        },
    }
    if token_eq_str(&field, "id") {
        let num = match expect_number(tokens) {
            Ok(n) => n,
            Err(e) => {
                return Err(e);
            },
        };
        Ok(Some(WhereClause::NodeIdEq { variable, value: num as u128 }))
    } else {
        let str_value = match expect_string(tokens) {
            Ok(s) => s,
            Err(e) => {
                return Err(e);
            },
        };
        Ok(Some(WhereClause::NodeAttrEq { variable, attr: field, value: str_value }))
    }
}

/// Parse the required RETURN clause.
pub fn parse_return(tokens: &mut Vec<String>) -> (r: Result<ReturnClause, ParseError>)
    ensures
        ({
            let (res, rest) = spec_parse_return(toks(old(tokens)@));
            &&& toks(final(tokens)@) == rest
            &&& (match (r, res) {
                (Ok(p), Ok(m)) => p@ == m,
                (Err(e), Err(em)) => e == em,
                _ => false,
            })
        }),
{
    proof {
        reveal_strlit("RETURN");
        reveal_strlit("*");
        reveal_strlit(".");
        assert(("RETURN")@ =~= kw_return());
        assert(("*")@ =~= seq!['*']);
        assert((".")@ =~= seq!['.']);
    }
    match expect_keyword(tokens, "RETURN") {
        Ok(u) => {},
        Err(e) => {
            return Err(e);
        },
    }
    if peek_is(tokens, "*") {
        let ghost pre = tokens@;
        tokens.remove(0);
        proof {
            lemma_toks_pop(pre);
        }
        return Ok(ReturnClause::All);
    }
    let variable = match expect_identifier(tokens) {
        Ok(v) => v,
        Err(e) => {
            return Err(e);
        },
    };
    if peek_is(tokens, ".") {
        let ghost pre = tokens@;
        tokens.remove(0);
        proof {
            lemma_toks_pop(pre);
        }
        let attr = match expect_identifier(tokens) {
            Ok(a) => a,
            Err(e) => {
                return Err(e);
            },
        };
        Ok(ReturnClause::NodeAttr { variable, attr })
    } else {
        Ok(ReturnClause::NodeId { variable })
    }
}

/// Parse the LIMIT clause, absent or a keyword and a number.
pub fn parse_limit(tokens: &mut Vec<String>) -> (r: Result<Option<usize>, ParseError>)
    ensures
        ({
            let (res, rest) = spec_parse_limit(toks(old(tokens)@));
            &&& toks(final(tokens)@) == rest
            &&& (match (r, res) {
                (Ok(o), Ok(m)) => o == m,
                (Err(e), Err(em)) => e == em,
                _ => false,
            })
        }),
{
    proof {
        reveal_strlit("LIMIT");
        assert(("LIMIT")@ =~= kw_limit());
    }
    if !peek_is_kw(tokens, "LIMIT") {
        return Ok(None);
    }
    let ghost pre = tokens@;
    tokens.remove(0);
    proof {
        lemma_toks_pop(pre);
    }
    let limit = match expect_number(tokens) {
        Ok(n) => n,
        Err(e) => {
            return Err(e);
        },
    };
    Ok(Some(limit))
}

/// Parse a query text into a typed query: tokenize, dispatch on the leading
/// keyword, demand a LIMIT on MATCH queries, and reject leftover tokens.
#[verifier::rlimit(100)]
pub fn parse(query: &str) -> (r: Result<CypherQuery, ParseError>)
    ensures
        match r {
            Ok(q) => spec_parse(query@) == Ok::<CypherQueryModel, ParseError>(q@),
            Err(e) => spec_parse(query@) == Err::<CypherQueryModel, ParseError>(e),
        },
{
    let mut tokens = match tokenize(query) {
        Ok(ts) => ts,
        Err(e) => {
            return Err(e);
        },
    };
    proof {
        reveal_strlit("CREATE");
        reveal_strlit("MATCH");
        assert(("CREATE")@ =~= kw_create());
        assert(("MATCH")@ =~= kw_match());
    }
    if tokens.len() == 0 {
        return Err(ParseError::InvalidSyntax);
    }
    if token_is_kw(&tokens[0], "CREATE") {
        let create_pattern = match parse_create(&mut tokens) {
            Ok(c) => c,
            Err(e) => {
                return Err(e);
            },
        };
        if tokens.len() != 0 {
            return Err(ParseError::InvalidSyntax);
        }
        Ok(CypherQuery::Create { create_pattern })
    } else if token_is_kw(&tokens[0], "MATCH") {
        let match_pattern = match parse_match(&mut tokens) {
            Ok(m) => m,
            Err(e) => {
                return Err(e);
            },
        };
        let where_clause = match parse_where(&mut tokens) {
            Ok(w) => w,
            Err(e) => {
                return Err(e);
            },
        };
        let return_clause = match parse_return(&mut tokens) {
            Ok(rc) => rc,
            Err(e) => {
                return Err(e);
            },
        };
        let limit = match parse_limit(&mut tokens) {
            Ok(l) => l,
            Err(e) => {
                return Err(e);
            },
        };
        if limit.is_none() {
            return Err(ParseError::MissingLimit);
        }
        if tokens.len() != 0 {
            return Err(ParseError::InvalidSyntax);
        }
        Ok(CypherQuery::Match { match_pattern, where_clause, return_clause, limit })
    } else {
        Err(ParseError::InvalidSyntax)
    }
}


/// A MATCH query whose pattern, optional WHERE clause and RETURN clause all
/// parse, but which is not followed by a LIMIT clause, always fails with
/// `MissingLimit`, whatever tokens follow.
pub proof fn lemma_match_without_limit(input: Seq<char>)
    requires
        ({
            let ts = spec_tokenize(input);
            &&& ts.len() > 0
            &&& !is_kw(ts[0], kw_create())
            &&& is_kw(ts[0], kw_match())
            &&& spec_parse_match(ts).0 is Ok
            &&& spec_parse_where(spec_parse_match(ts).1).0 is Ok
            &&& spec_parse_return(spec_parse_where(spec_parse_match(ts).1).1).0 is Ok
            &&& spec_parse_limit(
                spec_parse_return(spec_parse_where(spec_parse_match(ts).1).1).1,
            ).0 == Ok::<Option<usize>, ParseError>(None)
        }),
    ensures
        spec_parse(input) == Err::<CypherQueryModel, ParseError>(ParseError::MissingLimit),
{
}

} // verus!

