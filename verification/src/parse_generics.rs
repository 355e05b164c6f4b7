//! Parsing of `where` clauses in the text of an item.
//!
//! The text is split into tokens. A `where` clause at its start is taken
//! apart into its predicates, each of which is brought into one form, and
//! what follows the clause is left as it is.
use vstd::prelude::*;

verus! {

/// A token: the bytes of an identifier, of a lifetime, or of one other
/// character.
pub type Token = Seq<u8>;

pub open spec fn is_space(b: u8) -> bool {
    b == 32 || b == 9 || b == 10 || b == 13
}

pub open spec fn is_ident_start(b: u8) -> bool {
    (97 <= b <= 122) || (65 <= b <= 90) || b == 95
}

pub open spec fn is_ident_char(b: u8) -> bool {
    is_ident_start(b) || (48 <= b <= 57)
}

/// The first place at or after `i` that holds no white space.
pub open spec fn skip_spaces(s: Seq<u8>, i: int) -> int
    decreases s.len() - i,
{
    if 0 <= i < s.len() && is_space(s[i]) {
        skip_spaces(s, i + 1)
    } else {
        i
    }
}

/// The first place at or after `i` that holds no character of an
/// identifier.
pub open spec fn ident_end(s: Seq<u8>, i: int) -> int
    decreases s.len() - i,
{
    if 0 <= i < s.len() && is_ident_char(s[i]) {
        ident_end(s, i + 1)
    } else {
        i
    }
}

/// Where the token that starts at `start` ends. An identifier goes on as
/// far as its characters do; so does a lifetime, after its apostrophe; any
/// other character is a token by itself.
pub open spec fn token_end(s: Seq<u8>, start: int) -> int {
    if is_ident_start(s[start]) || s[start] == 39 {
        ident_end(s, start + 1)
    } else {
        start + 1
    }
}

/// The tokens of `s` from place `i` on.
pub open spec fn tokens_from(s: Seq<u8>, i: int) -> Seq<Token>
    decreases s.len() - i,
{
    let start = skip_spaces(s, i);
    if i < 0 || start >= s.len() {
        Seq::empty()
    } else {
        let end = token_end(s, start);
        if i <= start < end <= s.len() {
            seq![s.subrange(start, end)] + tokens_from(s, end)
        } else {
            Seq::empty()
        }
    }
}

/// The tokens of `s`.
pub open spec fn tokens(s: Seq<u8>) -> Seq<Token> {
    tokens_from(s, 0)
}

pub proof fn lemma_skip_spaces(s: Seq<u8>, i: int)
    requires
        0 <= i <= s.len(),
    ensures
        i <= skip_spaces(s, i) <= s.len(),
    decreases s.len() - i,
{
    if i < s.len() && is_space(s[i]) {
        lemma_skip_spaces(s, i + 1);
    }
}

pub proof fn lemma_ident_end(s: Seq<u8>, i: int)
    requires
        0 <= i <= s.len(),
    ensures
        i <= ident_end(s, i) <= s.len(),
    decreases s.len() - i,
{
    if i < s.len() && is_ident_char(s[i]) {
        lemma_ident_end(s, i + 1);
    }
}

/// A sequence of tokens as the views of the vectors that hold them.
pub open spec fn view_tokens(ts: Seq<Vec<u8>>) -> Seq<Token> {
    Seq::new(ts.len(), |i: int| ts[i]@)
}

fn is_space_byte(b: u8) -> (r: bool)
    ensures
        r == is_space(b),
{
    b == 32 || b == 9 || b == 10 || b == 13
}

fn is_ident_start_byte(b: u8) -> (r: bool)
    ensures
        r == is_ident_start(b),
{
    (97 <= b && b <= 122) || (65 <= b && b <= 90) || b == 95
}

fn is_ident_char_byte(b: u8) -> (r: bool)
    ensures
        r == is_ident_char(b),
{
    is_ident_start_byte(b) || (48 <= b && b <= 57)
}

/// Splits `s` into its tokens.
pub fn tokenize(s: &Vec<u8>) -> (r: Vec<Vec<u8>>)
    ensures
        view_tokens(r@) == tokens(s@),
{
    let mut out: Vec<Vec<u8>> = Vec::new();
    let mut i: usize = 0;
    let n = s.len();
    loop
        invariant
            n == s@.len(),
            i <= n,
            view_tokens(out@) + tokens_from(s@, i as int) == tokens(s@),
        ensures
            view_tokens(out@) == tokens(s@),
        decreases n - i,
    {
        let ghost at = i;
        let mut start: usize = i;
        while start < n && is_space_byte(s[start])
            invariant
                n == s@.len(),
                i <= start <= n,
                skip_spaces(s@, i as int) == skip_spaces(s@, start as int),
            decreases n - start,
        {
            start += 1;
        }
        if start >= n {
            proof {
                lemma_skip_spaces(s@, at as int);
                assert(tokens_from(s@, at as int) =~= Seq::<Token>::empty());
                assert(view_tokens(out@) + Seq::<Token>::empty() =~= view_tokens(out@));
            }
            break ;
        }
        let first = s[start];
        let mut end: usize = start + 1;
        if is_ident_start_byte(first) || first == 39 {
            while end < n && is_ident_char_byte(s[end])
                invariant
                    n == s@.len(),
                    start < end <= n,
                    ident_end(s@, start + 1) == ident_end(s@, end as int),
                decreases n - end,
            {
                end += 1;
            }
        }
        let mut token: Vec<u8> = Vec::new();
        let mut j: usize = start;
        while j < end
            invariant
                n == s@.len(),
                start <= j <= end <= n,
                token@ == s@.subrange(start as int, j as int),
            decreases end - j,
        {
            token.push(s[j]);
            proof {
                assert(token@ =~= s@.subrange(start as int, j + 1));
            }
            j += 1;
        }
        let ghost before = view_tokens(out@);
        out.push(token);
        proof {
            lemma_skip_spaces(s@, at as int);
            assert(view_tokens(out@) =~= before.push(s@.subrange(start as int, end as int)));
            assert(tokens_from(s@, at as int) == seq![s@.subrange(start as int, end as int)]
                + tokens_from(s@, end as int));
            assert(before.push(s@.subrange(start as int, end as int)) + tokens_from(
                s@,
                end as int,
            ) =~= before + (seq![s@.subrange(start as int, end as int)] + tokens_from(
                s@,
                end as int,
            )));
        }
        i = end;
    }
    out
}


/// The token that is the one character `b`.
pub open spec fn single(b: u8) -> Token {
    seq![b]
}

/// The keyword `where`.
pub open spec fn kw_where() -> Token {
    seq![119u8, 104u8, 101u8, 114u8, 101u8]
}

/// The keyword `for`.
pub open spec fn kw_for() -> Token {
    seq![102u8, 111u8, 114u8]
}

/// The field name `clause`.
pub open spec fn name_clause() -> Token {
    seq![99u8, 108u8, 97u8, 117u8, 115u8, 101u8]
}

/// The field name `preds`.
pub open spec fn name_preds() -> Token {
    seq![112u8, 114u8, 101u8, 100u8, 115u8]
}

pub const COMMA: u8 = 44;

pub const SEMICOLON: u8 = 59;

pub const COLON: u8 = 58;

pub const DOT: u8 = 46;

pub const LESS: u8 = 60;

pub const GREATER: u8 = 62;

pub const OPEN_BRACE: u8 = 123;

pub const CLOSE_BRACE: u8 = 125;

pub const OPEN_BRACKET: u8 = 91;

pub const CLOSE_BRACKET: u8 = 93;

pub const OPEN_PAREN: u8 = 40;

pub const CLOSE_PAREN: u8 = 41;

/// The token ends a `where` clause: it is `;` or `{`.
pub open spec fn ends_clause(t: Token) -> bool {
    t == single(SEMICOLON) || t == single(OPEN_BRACE)
}

/// How deep within brackets the text is after the token `t`, where it was
/// `depth` deep before it.
pub open spec fn depth_after(depth: int, t: Token) -> int {
    if t == single(LESS) || t == single(OPEN_PAREN) || t == single(OPEN_BRACKET) {
        depth + 1
    } else if t == single(GREATER) || t == single(CLOSE_PAREN) || t == single(CLOSE_BRACKET) {
        if depth > 0 {
            depth - 1
        } else {
            0
        }
    } else {
        depth
    }
}

/// Where the predicate that goes on at place `i`, `depth` deep within
/// brackets, ends: at the first comma or end of the clause that is not
/// within brackets, or at the end of the text.
pub open spec fn pred_end(ts: Seq<Token>, i: int, depth: int) -> int
    decreases ts.len() - i,
{
    if i < 0 || i >= ts.len() {
        ts.len() as int
    } else if depth == 0 && (ts[i] == single(COMMA) || ends_clause(ts[i])) {
        i
    } else {
        pred_end(ts, i + 1, depth_after(depth, ts[i]))
    }
}

/// Where the list of a `for<..>` that goes on at place `i`, `depth` deep
/// within brackets, ends: at the `>` that closes it, or at the end of the
/// text.
pub open spec fn binder_end(ts: Seq<Token>, i: int, depth: int) -> int
    decreases ts.len() - i,
{
    if i < 0 || i >= ts.len() {
        ts.len() as int
    } else if depth == 0 && ts[i] == single(GREATER) {
        i
    } else {
        binder_end(ts, i + 1, depth_after(depth, ts[i]))
    }
}

pub proof fn lemma_pred_end(ts: Seq<Token>, i: int, depth: int)
    requires
        0 <= i <= ts.len(),
    ensures
        i <= pred_end(ts, i, depth) <= ts.len(),
        i < ts.len() && !(depth == 0 && (ts[i] == single(COMMA) || ends_clause(ts[i]))) ==> i
            < pred_end(ts, i, depth),
    decreases ts.len() - i,
{
    if i < ts.len() && !(depth == 0 && (ts[i] == single(COMMA) || ends_clause(ts[i]))) {
        lemma_pred_end(ts, i + 1, depth_after(depth, ts[i]));
    }
}

pub proof fn lemma_binder_end(ts: Seq<Token>, i: int, depth: int)
    requires
        0 <= i <= ts.len(),
    ensures
        i <= binder_end(ts, i, depth) <= ts.len(),
    decreases ts.len() - i,
{
    if i < ts.len() && !(depth == 0 && ts[i] == single(GREATER)) {
        lemma_binder_end(ts, i + 1, depth_after(depth, ts[i]));
    }
}

/// A list in which every item is followed by a comma: the list as it is
/// where it is empty or ends in a comma, else with a comma added.
pub open spec fn with_trailing_comma(list: Seq<Token>) -> Seq<Token> {
    if list.len() == 0 || list.last() == single(COMMA) {
        list
    } else {
        list.push(single(COMMA))
    }
}

/// Whether a `for<..>` starts at place `i`.
pub open spec fn binder_at(ts: Seq<Token>, i: int) -> bool {
    0 <= i && i + 1 < ts.len() && ts[i] == kw_for() && ts[i + 1] == single(LESS)
}

/// The `for<..>` at place `i` in its one form: nothing where its list is
/// empty, else `for <`, the list with a comma after every item, and `>`.
pub open spec fn binder(ts: Seq<Token>, i: int) -> Seq<Token> {
    let list = with_trailing_comma(ts.subrange(i + 2, binder_end(ts, i + 2, 0)));
    if list.len() == 0 {
        Seq::empty()
    } else {
        seq![kw_for(), single(LESS)] + list + seq![single(GREATER)]
    }
}

/// Where what follows the `for<..>` at place `i` starts.
pub open spec fn after_binder(ts: Seq<Token>, i: int) -> int {
    let end = binder_end(ts, i + 2, 0);
    if end < ts.len() {
        end + 1
    } else {
        end
    }
}

/// Where the bounded type or lifetime of the predicate at place `i`
/// starts: behind its `for<..>`, if it has one.
pub open spec fn body_start(ts: Seq<Token>, i: int) -> int {
    if binder_at(ts, i) {
        after_binder(ts, i)
    } else {
        i
    }
}

/// The predicate at place `i` in its one form: its `for<..>`, if it has
/// one with a list that is not empty, then its tokens up to its end, then a
/// comma.
pub open spec fn predicate(ts: Seq<Token>, i: int) -> Seq<Token> {
    let start = body_start(ts, i);
    (if binder_at(ts, i) {
        binder(ts, i)
    } else {
        Seq::empty()
    }) + ts.subrange(start, pred_end(ts, start, 0)) + seq![single(COMMA)]
}

/// Where what follows the predicate at place `i` starts: behind the comma
/// that ends it, if one does.
pub open spec fn after_predicate(ts: Seq<Token>, i: int) -> int {
    let end = pred_end(ts, body_start(ts, i), 0);
    if end < ts.len() && ts[end] == single(COMMA) {
        end + 1
    } else {
        end
    }
}

/// The predicates from place `i` on, each in its one form, up to the end
/// of the clause.
pub open spec fn predicates(ts: Seq<Token>, i: int) -> Seq<Token>
    decreases ts.len() - i,
{
    if i < 0 || i >= ts.len() || ends_clause(ts[i]) {
        Seq::empty()
    } else {
        let next = after_predicate(ts, i);
        if i < next <= ts.len() {
            predicate(ts, i) + predicates(ts, next)
        } else {
            predicate(ts, i)
        }
    }
}

/// Where the clause whose predicates start at place `i` ends.
pub open spec fn clause_end(ts: Seq<Token>, i: int) -> int
    decreases ts.len() - i,
{
    if i < 0 || i >= ts.len() || ends_clause(ts[i]) {
        i
    } else {
        let next = after_predicate(ts, i);
        if i < next <= ts.len() {
            clause_end(ts, next)
        } else {
            next
        }
    }
}

/// A predicate is not empty: what follows it starts behind where it
/// started.
pub proof fn lemma_after_predicate(ts: Seq<Token>, i: int)
    requires
        0 <= i < ts.len(),
        !ends_clause(ts[i]),
    ensures
        i < after_predicate(ts, i) <= ts.len(),
        i <= body_start(ts, i) <= pred_end(ts, body_start(ts, i), 0) <= ts.len(),
{
    if binder_at(ts, i) {
        lemma_binder_end(ts, i + 2, 0);
    }
    let start = body_start(ts, i);
    lemma_pred_end(ts, start, 0);
}

pub proof fn lemma_clause_end(ts: Seq<Token>, i: int)
    requires
        0 <= i <= ts.len(),
    ensures
        i <= clause_end(ts, i) <= ts.len(),
    decreases ts.len() - i,
{
    if i < ts.len() && !ends_clause(ts[i]) {
        lemma_after_predicate(ts, i);
        lemma_clause_end(ts, after_predicate(ts, i));
    }
}

/// Whether the text starts with a `where` clause.
pub open spec fn has_where(ts: Seq<Token>) -> bool {
    ts.len() > 0 && ts[0] == kw_where()
}

/// The predicates of the `where` clause at the start of the text, each in
/// its one form; none where the text starts with no clause.
pub open spec fn where_predicates(ts: Seq<Token>) -> Seq<Token> {
    if has_where(ts) {
        predicates(ts, 1)
    } else {
        Seq::empty()
    }
}

/// What follows the `where` clause: the text from the end of the clause on,
/// or all of it where it starts with no clause.
pub open spec fn after_where(ts: Seq<Token>) -> Seq<Token> {
    if has_where(ts) {
        ts.subrange(clause_end(ts, 1), ts.len() as int)
    } else {
        ts
    }
}

/// Which parts of a clause are asked for.
#[derive(Clone, Copy, PartialEq, Eq, Structural, Debug)]
pub struct Fields {
    /// The clause as it is written, with its keyword.
    pub clause: bool,
    /// The predicates alone.
    pub preds: bool,
    /// Every part, and whatever parts there may be beyond these.
    pub open: bool,
}

/// The field list contains the token `t` between its braces.
pub open spec fn field_named(fs: Seq<Token>, t: Token) -> bool {
    exists|i: int| 0 < i < fs.len() - 1 && #[trigger] fs[i] == t
}

/// A field list is `{`, then any of `clause`, `preds`, commas and dots,
/// then `}`.
pub open spec fn fields_well_formed(fs: Seq<Token>) -> bool {
    &&& fs.len() >= 2
    &&& fs[0] == single(OPEN_BRACE)
    &&& fs.last() == single(CLOSE_BRACE)
    &&& forall|i: int|
        0 < i < fs.len() - 1 ==> (#[trigger] fs[i]) == name_clause() || fs[i] == name_preds()
            || fs[i] == single(COMMA) || fs[i] == single(DOT)
}

/// What a field list asks for; `None` where it is not well formed.
pub open spec fn parse_fields(fs: Seq<Token>) -> Option<Fields> {
    if fields_well_formed(fs) {
        Some(
            Fields {
                clause: field_named(fs, name_clause()),
                preds: field_named(fs, name_preds()),
                open: field_named(fs, single(DOT)),
            },
        )
    } else {
        None
    }
}

/// The part `clause`, where `fields` asks for it: its name, a colon, and in
/// brackets the keyword, if the text has a clause, and the predicates; then
/// a comma.
pub open spec fn clause_part(fields: Fields, ts: Seq<Token>) -> Seq<Token> {
    if fields.clause || fields.open {
        seq![name_clause(), single(COLON), single(OPEN_BRACKET)] + (if has_where(ts) {
            seq![kw_where()]
        } else {
            Seq::empty()
        }) + where_predicates(ts) + seq![single(CLOSE_BRACKET), single(COMMA)]
    } else {
        Seq::empty()
    }
}

/// The part `preds`, where `fields` asks for it: its name, a colon, and in
/// brackets the predicates; then a comma.
pub open spec fn preds_part(fields: Fields, ts: Seq<Token>) -> Seq<Token> {
    if fields.preds || fields.open {
        seq![name_preds(), single(COLON), single(OPEN_BRACKET)] + where_predicates(ts) + seq![
            single(CLOSE_BRACKET),
            single(COMMA),
        ]
    } else {
        Seq::empty()
    }
}

/// The two dots that stand for further parts, where `fields` has them.
pub open spec fn dots_part(fields: Fields) -> Seq<Token> {
    if fields.open {
        seq![single(DOT), single(DOT)]
    } else {
        Seq::empty()
    }
}

/// The parts of the clause that `fields` asks for, within braces, and
/// behind them a comma and what follows the clause.
pub open spec fn output(fields: Fields, ts: Seq<Token>) -> Seq<Token> {
    seq![single(OPEN_BRACE)] + clause_part(fields, ts) + preds_part(fields, ts) + dots_part(
        fields,
    ) + seq![single(CLOSE_BRACE), single(COMMA)] + after_where(ts)
}

/// The tokens as text: each is followed by one space.
pub open spec fn joined(ts: Seq<Token>) -> Seq<u8>
    decreases ts.len(),
{
    if ts.len() == 0 {
        Seq::empty()
    } else {
        ts[0] + seq![32u8] + joined(ts.drop_first())
    }
}

/// What `parse_where_shim` returns for the field list `fields` and the text
/// `input`: the text of `output`, or `None` where the field list is not
/// well formed.
pub open spec fn spec_parse_where(fields: Seq<u8>, input: Seq<u8>) -> Option<Seq<u8>> {
    match parse_fields(tokens(fields)) {
        Some(f) => Some(joined(output(f, tokens(input)))),
        None => None,
    }
}


fn token_is(t: &Vec<u8>, k: &Vec<u8>) -> (r: bool)
    ensures
        r == (t@ == k@),
{
    if t.len() != k.len() {
        return false;
    }
    let mut i: usize = 0;
    while i < t.len()
        invariant
            i <= t.len(),
            t.len() == k.len(),
            forall|j: int| 0 <= j < i ==> t@[j] == k@[j],
        decreases t.len() - i,
    {
        if t[i] != k[i] {
            return false;
        }
        i += 1;
    }
    proof {
        assert(t@ =~= k@);
    }
    true
}

fn is_single(t: &Vec<u8>, b: u8) -> (r: bool)
    ensures
        r == (t@ == single(b)),
{
    let r = t.len() == 1 && t[0] == b;
    proof {
        if r {
            assert(t@ =~= single(b));
        } else if t@ == single(b) {
            assert(single(b)[0] == b);
        }
    }
    r
}

fn is_where(t: &Vec<u8>) -> (r: bool)
    ensures
        r == (t@ == kw_where()),
{
    let k: Vec<u8> = vec![119u8, 104u8, 101u8, 114u8, 101u8];
    token_is(t, &k)
}

fn is_for(t: &Vec<u8>) -> (r: bool)
    ensures
        r == (t@ == kw_for()),
{
    let k: Vec<u8> = vec![102u8, 111u8, 114u8];
    token_is(t, &k)
}

fn is_clause(t: &Vec<u8>) -> (r: bool)
    ensures
        r == (t@ == name_clause()),
{
    let k: Vec<u8> = vec![99u8, 108u8, 97u8, 117u8, 115u8, 101u8];
    token_is(t, &k)
}

fn is_preds(t: &Vec<u8>) -> (r: bool)
    ensures
        r == (t@ == name_preds()),
{
    let k: Vec<u8> = vec![112u8, 114u8, 101u8, 100u8, 115u8];
    token_is(t, &k)
}

fn ends_clause_token(t: &Vec<u8>) -> (r: bool)
    ensures
        r == ends_clause(t@),
{
    is_single(t, SEMICOLON) || is_single(t, OPEN_BRACE)
}

fn push_token(out: &mut Vec<Vec<u8>>, t: Vec<u8>)
    ensures
        view_tokens(final(out)@) == view_tokens(old(out)@).push(t@),
{
    out.push(t);
    proof {
        assert(view_tokens(out@) =~= view_tokens(old(out)@).push(t@));
    }
}

fn push_single(out: &mut Vec<Vec<u8>>, b: u8)
    ensures
        view_tokens(final(out)@) == view_tokens(old(out)@).push(single(b)),
{
    let t: Vec<u8> = vec![b];
    proof {
        assert(t@ =~= single(b));
    }
    push_token(out, t);
}

fn copy_token(t: &Vec<u8>) -> (r: Vec<u8>)
    ensures
        r@ == t@,
{
    let mut r: Vec<u8> = Vec::new();
    let mut i: usize = 0;
    while i < t.len()
        invariant
            i <= t.len(),
            r@ == t@.subrange(0, i as int),
        decreases t.len() - i,
    {
        r.push(t[i]);
        proof {
            assert(r@ =~= t@.subrange(0, i + 1));
        }
        i += 1;
    }
    proof {
        assert(r@ =~= t@);
    }
    r
}

/// Appends the tokens of `ts` from place `from` up to place `to`.
fn copy_tokens(out: &mut Vec<Vec<u8>>, ts: &Vec<Vec<u8>>, from: usize, to: usize)
    requires
        from <= to <= ts@.len(),
    ensures
        view_tokens(final(out)@) == view_tokens(old(out)@) + view_tokens(ts@).subrange(
            from as int,
            to as int,
        ),
{
    let mut i: usize = from;
    proof {
        assert(view_tokens(out@) =~= view_tokens(old(out)@) + view_tokens(ts@).subrange(
            from as int,
            from as int,
        ));
    }
    while i < to
        invariant
            from <= i <= to <= ts@.len(),
            view_tokens(out@) == view_tokens(old(out)@) + view_tokens(ts@).subrange(
                from as int,
                i as int,
            ),
        decreases to - i,
    {
        let t = copy_token(&ts[i]);
        let ghost before = view_tokens(out@);
        push_token(out, t);
        proof {
            assert(before.push(ts@[i as int]@) =~= view_tokens(old(out)@) + view_tokens(
                ts@,
            ).subrange(from as int, i + 1));
        }
        i += 1;
    }
}

fn depth_after_token(depth: usize, t: &Vec<u8>) -> (r: usize)
    requires
        depth < usize::MAX,
    ensures
        r == depth_after(depth as int, t@),
{
    if is_single(t, LESS) || is_single(t, OPEN_PAREN) || is_single(t, OPEN_BRACKET) {
        depth + 1
    } else if is_single(t, GREATER) || is_single(t, CLOSE_PAREN) || is_single(t, CLOSE_BRACKET) {
        if depth > 0 {
            depth - 1
        } else {
            0
        }
    } else {
        depth
    }
}

fn find_pred_end(ts: &Vec<Vec<u8>>, start: usize) -> (r: usize)
    requires
        start <= ts@.len(),
    ensures
        r == pred_end(view_tokens(ts@), start as int, 0),
        start <= r <= ts@.len(),
{
    proof {
        lemma_pred_end(view_tokens(ts@), start as int, 0);
    }
    let mut i: usize = start;
    let mut depth: usize = 0;
    while i < ts.len()
        invariant
            start <= i <= ts@.len(),
            depth <= i - start,
            pred_end(view_tokens(ts@), start as int, 0) == pred_end(
                view_tokens(ts@),
                i as int,
                depth as int,
            ),
        decreases ts@.len() - i,
    {
        if depth == 0 && (is_single(&ts[i], COMMA) || ends_clause_token(&ts[i])) {
            return i;
        }
        depth = depth_after_token(depth, &ts[i]);
        i += 1;
    }
    i
}

fn find_binder_end(ts: &Vec<Vec<u8>>, start: usize) -> (r: usize)
    requires
        start <= ts@.len(),
    ensures
        r == binder_end(view_tokens(ts@), start as int, 0),
        start <= r <= ts@.len(),
{
    proof {
        lemma_binder_end(view_tokens(ts@), start as int, 0);
    }
    let mut i: usize = start;
    let mut depth: usize = 0;
    while i < ts.len()
        invariant
            start <= i <= ts@.len(),
            depth <= i - start,
            binder_end(view_tokens(ts@), start as int, 0) == binder_end(
                view_tokens(ts@),
                i as int,
                depth as int,
            ),
        decreases ts@.len() - i,
    {
        if depth == 0 && is_single(&ts[i], GREATER) {
            return i;
        }
        depth = depth_after_token(depth, &ts[i]);
        i += 1;
    }
    i
}

/// Appends the predicate at place `i`, in its one form, and returns where
/// what follows it starts.
fn push_predicate(out: &mut Vec<Vec<u8>>, ts: &Vec<Vec<u8>>, i: usize) -> (next: usize)
    requires
        i < ts@.len(),
        !ends_clause(view_tokens(ts@)[i as int]),
    ensures
        view_tokens(final(out)@) == view_tokens(old(out)@) + predicate(view_tokens(ts@), i as int),
        next == after_predicate(view_tokens(ts@), i as int),
        i < next <= ts@.len(),
{
    let ghost tv = view_tokens(ts@);
    let ghost before = view_tokens(out@);
    proof {
        lemma_after_predicate(tv, i as int);
    }
    let mut start: usize = i;
    let n = ts.len();
    if i < n - 1 && is_for(&ts[i]) && is_single(&ts[i + 1], LESS) {
        let end = find_binder_end(ts, i + 2);
        let list_is_empty = end == i + 2;
        if !list_is_empty {
            let k: Vec<u8> = vec![102u8, 111u8, 114u8];
            push_token(out, k);
            push_single(out, LESS);
            copy_tokens(out, ts, i + 2, end);
            if !is_single(&ts[end - 1], COMMA) {
                push_single(out, COMMA);
            }
            push_single(out, GREATER);
        }
        proof {
            let list = tv.subrange(i + 2, end as int);
            assert(list.len() == end - (i + 2));
            if !list_is_empty {
                assert(list.last() == tv[end - 1]);
                assert(view_tokens(out@) =~= before + binder(tv, i as int));
            } else {
                assert(binder(tv, i as int) =~= Seq::<Token>::empty());
                assert(view_tokens(out@) =~= before + binder(tv, i as int));
            }
        }
        start = if end < ts.len() {
            end + 1
        } else {
            end
        };
    } else {
        proof {
            assert(view_tokens(out@) =~= before + Seq::<Token>::empty());
        }
    }
    let end = find_pred_end(ts, start);
    let ghost with_binder = view_tokens(out@);
    copy_tokens(out, ts, start, end);
    push_single(out, COMMA);
    proof {
        assert(view_tokens(out@) =~= before + predicate(tv, i as int));
    }
    if end < ts.len() && is_single(&ts[end], COMMA) {
        end + 1
    } else {
        end
    }
}

/// Appends the predicates from place `i` on, each in its one form, and
/// returns where the clause ends.
fn push_predicates(out: &mut Vec<Vec<u8>>, ts: &Vec<Vec<u8>>, i: usize) -> (end: usize)
    requires
        i <= ts@.len(),
    ensures
        view_tokens(final(out)@) == view_tokens(old(out)@) + predicates(view_tokens(ts@), i as int),
        end == clause_end(view_tokens(ts@), i as int),
        i <= end <= ts@.len(),
{
    let ghost tv = view_tokens(ts@);
    let ghost before = view_tokens(out@);
    let mut pos: usize = i;
    proof {
        lemma_clause_end(tv, i as int);
        assert(before + predicates(tv, i as int) =~= before + Seq::<Token>::empty() + predicates(
            tv,
            i as int,
        ));
    }
    let ghost mut done: Seq<Token> = Seq::empty();
    while pos < ts.len() && !ends_clause_token(&ts[pos])
        invariant
            i <= pos <= ts@.len(),
            tv == view_tokens(ts@),
            view_tokens(out@) == before + done,
            done + predicates(tv, pos as int) == predicates(tv, i as int),
            clause_end(tv, pos as int) == clause_end(tv, i as int),
        decreases ts@.len() - pos,
    {
        let ghost at = pos;
        proof {
            lemma_after_predicate(tv, pos as int);
        }
        pos = push_predicate(out, ts, pos);
        proof {
            assert(predicates(tv, at as int) == predicate(tv, at as int) + predicates(
                tv,
                pos as int,
            ));
            assert((done + predicate(tv, at as int)) + predicates(tv, pos as int) =~= done + (
            predicate(tv, at as int) + predicates(tv, pos as int)));
            assert(before + done + predicate(tv, at as int) =~= before + (done + predicate(
                tv,
                at as int,
            )));
            done = done + predicate(tv, at as int);
        }
    }
    proof {
        assert(predicates(tv, pos as int) =~= Seq::<Token>::empty());
        assert(done + Seq::<Token>::empty() =~= done);
    }
    pos
}

/// Reads what a field list asks for.
fn read_fields(fs: &Vec<Vec<u8>>) -> (r: Option<Fields>)
    ensures
        r == parse_fields(view_tokens(fs@)),
{
    let ghost fv = view_tokens(fs@);
    let n = fs.len();
    if n < 2 || !is_single(&fs[0], OPEN_BRACE) || !is_single(&fs[n - 1], CLOSE_BRACE) {
        proof {
            if n >= 2 {
                assert(fv.last() == fv[n - 1]);
            }
        }
        return None;
    }
    let mut clause = false;
    let mut preds = false;
    let mut open = false;
    let mut i: usize = 1;
    while i < n - 1
        invariant
            1 <= i <= n - 1,
            n == fs@.len(),
            fv == view_tokens(fs@),
            forall|j: int|
                0 < j < i ==> (#[trigger] fv[j]) == name_clause() || fv[j] == name_preds() || fv[j]
                    == single(COMMA) || fv[j] == single(DOT),
            clause == (exists|j: int| 0 < j < i && #[trigger] fv[j] == name_clause()),
            preds == (exists|j: int| 0 < j < i && #[trigger] fv[j] == name_preds()),
            open == (exists|j: int| 0 < j < i && #[trigger] fv[j] == single(DOT)),
        decreases n - i,
    {
        let c = is_clause(&fs[i]);
        let p = is_preds(&fs[i]);
        let d = is_single(&fs[i], DOT);
        if !(c || p || d || is_single(&fs[i], COMMA)) {
            proof {
                assert(!(fv[i as int] == name_clause() || fv[i as int] == name_preds()
                    || fv[i as int] == single(COMMA) || fv[i as int] == single(DOT)));
            }
            return None;
        }
        proof {
            let t = fv[i as int];
            assert(c ==> fv[i as int] == name_clause());
            assert(p ==> fv[i as int] == name_preds());
            assert(d ==> fv[i as int] == single(DOT));
            if exists|j: int| 0 < j < i + 1 && #[trigger] fv[j] == name_clause() {
                let j = choose|j: int| 0 < j < i + 1 && #[trigger] fv[j] == name_clause();
                assert(j < i || c);
            }
            if exists|j: int| 0 < j < i + 1 && #[trigger] fv[j] == name_preds() {
                let j = choose|j: int| 0 < j < i + 1 && #[trigger] fv[j] == name_preds();
                assert(j < i || p);
            }
            if exists|j: int| 0 < j < i + 1 && #[trigger] fv[j] == single(DOT) {
                let j = choose|j: int| 0 < j < i + 1 && #[trigger] fv[j] == single(DOT);
                assert(j < i || d);
            }
        }
        clause = clause || c;
        preds = preds || p;
        open = open || d;
        i += 1;
    }
    proof {
        assert(fv.last() == fv[n - 1]);
    }
    Some(Fields { clause, preds, open })
}

/// Appends the part `clause`, where `fields` asks for it.
fn push_clause_part(
    out: &mut Vec<Vec<u8>>,
    fields: Fields,
    with_where: bool,
    preds: &Vec<Vec<u8>>,
    Ghost(tv): Ghost<Seq<Token>>,
)
    requires
        with_where == has_where(tv),
        view_tokens(preds@) == where_predicates(tv),
    ensures
        view_tokens(final(out)@) == view_tokens(old(out)@) + clause_part(fields, tv),
{
    let ghost before = view_tokens(out@);
    if fields.clause || fields.open {
        let k: Vec<u8> = vec![99u8, 108u8, 97u8, 117u8, 115u8, 101u8];
        push_token(out, k);
        push_single(out, COLON);
        push_single(out, OPEN_BRACKET);
        if with_where {
            let w: Vec<u8> = vec![119u8, 104u8, 101u8, 114u8, 101u8];
            push_token(out, w);
        }
        copy_tokens(out, preds, 0, preds.len());
        push_single(out, CLOSE_BRACKET);
        push_single(out, COMMA);
        proof {
            let p = view_tokens(preds@);
            assert(p.subrange(0, p.len() as int) =~= p);
            assert(view_tokens(out@) =~= before + clause_part(fields, tv));
        }
    } else {
        proof {
            assert(view_tokens(out@) =~= before + clause_part(fields, tv));
        }
    }
}

/// Appends the part `preds`, where `fields` asks for it.
fn push_preds_part(
    out: &mut Vec<Vec<u8>>,
    fields: Fields,
    preds: &Vec<Vec<u8>>,
    Ghost(tv): Ghost<Seq<Token>>,
)
    requires
        view_tokens(preds@) == where_predicates(tv),
    ensures
        view_tokens(final(out)@) == view_tokens(old(out)@) + preds_part(fields, tv),
{
    let ghost before = view_tokens(out@);
    if fields.preds || fields.open {
        let k: Vec<u8> = vec![112u8, 114u8, 101u8, 100u8, 115u8];
        push_token(out, k);
        push_single(out, COLON);
        push_single(out, OPEN_BRACKET);
        copy_tokens(out, preds, 0, preds.len());
        push_single(out, CLOSE_BRACKET);
        push_single(out, COMMA);
        proof {
            let p = view_tokens(preds@);
            assert(p.subrange(0, p.len() as int) =~= p);
            assert(view_tokens(out@) =~= before + preds_part(fields, tv));
        }
    } else {
        proof {
            assert(view_tokens(out@) =~= before + preds_part(fields, tv));
        }
    }
}

/// Appends the two dots, where `fields` has them, and the closing brace
/// and comma.
fn push_closing(out: &mut Vec<Vec<u8>>, fields: Fields)
    ensures
        view_tokens(final(out)@) == view_tokens(old(out)@) + dots_part(fields) + seq![
            single(CLOSE_BRACE),
            single(COMMA),
        ],
{
    let ghost before = view_tokens(out@);
    if fields.open {
        push_single(out, DOT);
        push_single(out, DOT);
    }
    push_single(out, CLOSE_BRACE);
    push_single(out, COMMA);
    proof {
        assert(view_tokens(out@) =~= before + dots_part(fields) + seq![
            single(CLOSE_BRACE),
            single(COMMA),
        ]);
    }
}

/// Builds the tokens that `output` describes.
fn build_output(fields: Fields, ts: &Vec<Vec<u8>>) -> (out: Vec<Vec<u8>>)
    ensures
        view_tokens(out@) == output(fields, view_tokens(ts@)),
{
    let ghost tv = view_tokens(ts@);
    let with_where = ts.len() > 0 && is_where(&ts[0]);
    let mut preds: Vec<Vec<u8>> = Vec::new();
    let mut rest: usize = 0;
    if with_where {
        rest = push_predicates(&mut preds, ts, 1);
    }
    proof {
        assert(view_tokens(preds@) =~= where_predicates(tv));
        if !with_where {
            assert(tv.subrange(0, tv.len() as int) =~= tv);
        }
    }
    let mut out: Vec<Vec<u8>> = Vec::new();
    push_single(&mut out, OPEN_BRACE);
    proof {
        assert(view_tokens(out@) =~= seq![single(OPEN_BRACE)]);
    }
    push_clause_part(&mut out, fields, with_where, &preds, Ghost(tv));
    push_preds_part(&mut out, fields, &preds, Ghost(tv));
    push_closing(&mut out, fields);
    copy_tokens(&mut out, ts, rest, ts.len());
    out
}

/// Writes the tokens as text, each followed by one space.
fn join(ts: &Vec<Vec<u8>>) -> (r: Vec<u8>)
    ensures
        r@ == joined(view_tokens(ts@)),
{
    let ghost tv = view_tokens(ts@);
    let mut r: Vec<u8> = Vec::new();
    let mut i: usize = 0;
    proof {
        assert(tv.subrange(0, tv.len() as int) =~= tv);
        assert(r@ + joined(tv) =~= joined(tv));
    }
    while i < ts.len()
        invariant
            i <= ts@.len(),
            tv == view_tokens(ts@),
            r@ + joined(tv.subrange(i as int, tv.len() as int)) == joined(tv),
        decreases ts@.len() - i,
    {
        let ghost before = r@;
        let ghost tail = tv.subrange(i as int, tv.len() as int);
        let t = &ts[i];
        let mut j: usize = 0;
        while j < t.len()
            invariant
                j <= t@.len(),
                r@ == before + t@.subrange(0, j as int),
            decreases t@.len() - j,
        {
            r.push(t[j]);
            proof {
                assert(r@ =~= before + t@.subrange(0, j + 1));
            }
            j += 1;
        }
        r.push(32);
        proof {
            assert(tail[0] == t@);
            assert(tail.drop_first() =~= tv.subrange(i + 1, tv.len() as int));
            assert(t@.subrange(0, t@.len() as int) =~= t@);
            assert(r@ =~= before + (t@ + seq![32u8]));
            assert(joined(tail) == t@ + seq![32u8] + joined(tail.drop_first()));
            assert(r@ + joined(tv.subrange(i + 1, tv.len() as int)) =~= before + joined(tail));
        }
        i += 1;
    }
    proof {
        assert(joined(tv.subrange(i as int, tv.len() as int)) =~= Seq::<u8>::empty());
        assert(r@ + Seq::<u8>::empty() =~= r@);
    }
    r
}

/// Takes the `where` clause at the start of the text `input` apart.
///
/// `fields` names the parts that are asked for, in braces: `clause`, the
/// clause as it is written; `preds`, its predicates alone; `..`, every
/// part. The result is the text of these parts in braces, each as a name, a
/// colon and a list in brackets, then a comma and what follows the clause
/// in `input`. In the lists every predicate is followed by a comma, and so
/// is every item in the list of a `for<..>`; a `for<>` with an empty list
/// is left out. Every token of the result is followed by one space.
///
/// Returns `None` where `fields` is not a list of that form.
pub fn parse_where_shim(fields: &Vec<u8>, input: &Vec<u8>) -> (r: Option<Vec<u8>>)
    ensures
        match r {
            Some(text) => spec_parse_where(fields@, input@) == Some(text@),
            None => spec_parse_where(fields@, input@) is None,
        },
{
    let fs = tokenize(fields);
    match read_fields(&fs) {
        Some(f) => {
            let ts = tokenize(input);
            let out = build_output(f, &ts);
            Some(join(&out))
        },
        None => None,
    }
}

} // verus!
