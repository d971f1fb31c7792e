//! Conditions on the target platform: `unix`, `target_os = "linux"`,
//! `not(..)`, `all(..)`, `any(..)`.

use vstd::prelude::*;
use crate::text::{chars_of, string_of_range};

verus! {

/// An atomic condition.
#[derive(Debug, PartialEq, Eq)]
pub enum Cfg {
    /// A name, such as `unix`.
    Name(String),
    /// A key with a value, such as `target_os = "linux"`.
    KeyPair(String, String),
}

/// A condition on the target platform.
#[derive(Debug, PartialEq, Eq)]
pub enum CfgExpr {
    Not(Box<CfgExpr>),
    All(Vec<CfgExpr>),
    Any(Vec<CfgExpr>),
    Value(Cfg),
}

/// A condition as a mathematical value.
pub enum CfgExprView {
    Not(Box<CfgExprView>),
    All(Seq<CfgExprView>),
    Any(Seq<CfgExprView>),
    Name(Seq<char>),
    KeyPair(Seq<char>, Seq<char>),
}

impl CfgExpr {
    /// The condition as a mathematical value.
    pub open spec fn spec_view(&self) -> CfgExprView
        decreases self,
    {
        match self {
            CfgExpr::Not(inner) => CfgExprView::Not(Box::new(inner.spec_view())),
            CfgExpr::All(list) => CfgExprView::All(
                Seq::new(
                    list.len() as nat,
                    |i: int|
                        if 0 <= i < list.len() {
                            list[i].spec_view()
                        } else {
                            CfgExprView::All(Seq::empty())
                        },
                ),
            ),
            CfgExpr::Any(list) => CfgExprView::Any(
                Seq::new(
                    list.len() as nat,
                    |i: int|
                        if 0 <= i < list.len() {
                            list[i].spec_view()
                        } else {
                            CfgExprView::All(Seq::empty())
                        },
                ),
            ),
            CfgExpr::Value(Cfg::Name(name)) => CfgExprView::Name(name@),
            CfgExpr::Value(Cfg::KeyPair(key, value)) => CfgExprView::KeyPair(key@, value@),
        }
    }
}

impl View for CfgExpr {
    type V = CfgExprView;

    open spec fn view(&self) -> CfgExprView {
        self.spec_view()
    }
}

impl CfgExprView {
    /// Whether every `all` and every `any` in the condition has at least one member.
    pub open spec fn wf(self) -> bool
        decreases self,
    {
        match self {
            CfgExprView::Not(inner) => inner.wf(),
            CfgExprView::All(list) => list.len() > 0 && forall|i: int|
                0 <= i < list.len() ==> (#[trigger] list[i]).wf(),
            CfgExprView::Any(list) => list.len() > 0 && forall|i: int|
                0 <= i < list.len() ==> (#[trigger] list[i]).wf(),
            _ => true,
        }
    }
}


/// The members of an `all` or an `any`.
pub open spec fn members(e: CfgExprView) -> Seq<CfgExprView> {
    match e {
        CfgExprView::All(list) => list,
        CfgExprView::Any(list) => list,
        _ => Seq::empty(),
    }
}

/// The views of the conditions of a list.
pub open spec fn views_of(list: Seq<CfgExpr>) -> Seq<CfgExprView> {
    Seq::new(list.len(), |i: int| list[i]@)
}

/// A word or sign of the text of a condition.
#[derive(Debug, PartialEq, Eq)]
pub enum Token {
    LeftParen,
    RightParen,
    Comma,
    Equals,
    /// A name: a letter or an underscore, then letters, digits and underscores.
    Ident(String),
    /// What stands between two double quotes.
    Text(String),
}

pub enum TokenView {
    LeftParen,
    RightParen,
    Comma,
    Equals,
    Ident(Seq<char>),
    Text(Seq<char>),
}

impl DeepView for Token {
    type V = TokenView;

    open spec fn deep_view(&self) -> TokenView {
        match self {
            Token::LeftParen => TokenView::LeftParen,
            Token::RightParen => TokenView::RightParen,
            Token::Comma => TokenView::Comma,
            Token::Equals => TokenView::Equals,
            Token::Ident(name) => TokenView::Ident(name@),
            Token::Text(text) => TokenView::Text(text@),
        }
    }
}

impl View for Token {
    type V = TokenView;

    open spec fn view(&self) -> TokenView {
        self.deep_view()
    }
}

/// Whether a name can begin with the character: an ASCII letter or an underscore.
pub open spec fn is_ident_start(c: char) -> bool {
    c == '_' || ('a' <= c && c <= 'z') || ('A' <= c && c <= 'Z')
}

/// Whether a name can go on with the character: as it can begin, or an ASCII digit.
pub open spec fn is_ident_rest(c: char) -> bool {
    is_ident_start(c) || ('0' <= c && c <= '9')
}

/// The position behind the name characters that stand from `pos` on.
pub open spec fn ident_end(text: Seq<char>, pos: int) -> int
    decreases text.len() - pos,
{
    if 0 <= pos < text.len() && is_ident_rest(text[pos]) {
        ident_end(text, pos + 1)
    } else {
        pos
    }
}

/// The position of the first double quote from `pos` on; the length of the text where there is none.
pub open spec fn quote_at(text: Seq<char>, pos: int) -> int
    decreases text.len() - pos,
{
    if 0 <= pos < text.len() && text[pos] != '"' {
        quote_at(text, pos + 1)
    } else {
        pos
    }
}

/// `token` followed by the tokens `rest`, where there are any.
pub open spec fn followed_by(token: TokenView, rest: Option<Seq<TokenView>>) -> Option<Seq<TokenView>> {
    match rest {
        Some(rest) => Some(seq![token] + rest),
        None => None,
    }
}

/// The tokens of a text from position `pos` on. Blanks separate tokens
/// and mean nothing else. There are none where a string is left open or a
/// character belongs to no token.
pub open spec fn lex_from(text: Seq<char>, pos: int) -> Option<Seq<TokenView>>
    decreases text.len() - pos,
{
    if pos < 0 || pos >= text.len() {
        Some(Seq::empty())
    } else {
        let c = text[pos];
        if c == ' ' {
            lex_from(text, pos + 1)
        } else if c == '(' {
            followed_by(TokenView::LeftParen, lex_from(text, pos + 1))
        } else if c == ')' {
            followed_by(TokenView::RightParen, lex_from(text, pos + 1))
        } else if c == ',' {
            followed_by(TokenView::Comma, lex_from(text, pos + 1))
        } else if c == '=' {
            followed_by(TokenView::Equals, lex_from(text, pos + 1))
        } else if c == '"' {
            let end = quote_at(text, pos + 1);
            if pos < end < text.len() {
                followed_by(TokenView::Text(text.subrange(pos + 1, end)), lex_from(text, end + 1))
            } else {
                None
            }
        } else if is_ident_start(c) {
            let end = ident_end(text, pos + 1);
            if pos < end <= text.len() {
                followed_by(TokenView::Ident(text.subrange(pos, end)), lex_from(text, end))
            } else {
                None
            }
        } else {
            None
        }
    }
}

/// The tokens of a text.
pub open spec fn lex(text: Seq<char>) -> Option<Seq<TokenView>> {
    lex_from(text, 0)
}

/// Whether a name can begin with the character.
fn ident_start(c: char) -> (r: bool)
    ensures
        r == is_ident_start(c),
{
    c == '_' || ('a' <= c && c <= 'z') || ('A' <= c && c <= 'Z')
}

/// Whether a name can go on with the character.
fn ident_rest(c: char) -> (r: bool)
    ensures
        r == is_ident_rest(c),
{
    ident_start(c) || ('0' <= c && c <= '9')
}

/// Splits the text of a condition into tokens.
pub fn tokenize(text: &str) -> (r: Option<Vec<Token>>)
    ensures
        r.deep_view() == lex(text@),
{
    let v = chars_of(text);
    let mut tokens: Vec<Token> = Vec::new();
    let mut pos: usize = 0;
    assert(Seq::<TokenView>::empty() + lex_from(v@, 0)->0 =~= lex_from(v@, 0)->0);
    while pos < v.len()
        invariant
            pos <= v.len(),
            v@ == text@,
            match lex_from(v@, pos as int) {
                Some(rest) => lex_from(v@, 0) == Some(tokens.deep_view() + rest),
                None => lex_from(v@, 0) is None,
            },
        decreases v.len() - pos,
    {
        let c = v[pos];
        let ghost before = tokens.deep_view();
        let ghost here = pos as int;
        let mut token: Option<Token> = None;
        if c == ' ' {
            pos = pos + 1;
        } else if c == '(' {
            token = Some(Token::LeftParen);
            pos = pos + 1;
        } else if c == ')' {
            token = Some(Token::RightParen);
            pos = pos + 1;
        } else if c == ',' {
            token = Some(Token::Comma);
            pos = pos + 1;
        } else if c == '=' {
            token = Some(Token::Equals);
            pos = pos + 1;
        } else if c == '"' {
            let mut end: usize = pos + 1;
            while end < v.len() && v[end] != '"'
                invariant
                    pos < end <= v.len(),
                    quote_at(v@, pos + 1) == quote_at(v@, end as int),
                decreases v.len() - end,
            {
                end = end + 1;
            }
            if end >= v.len() {
                return None;
            }
            token = Some(Token::Text(string_of_range(&v, pos + 1, end)));
            pos = end + 1;
        } else if ident_start(c) {
            let mut end: usize = pos + 1;
            while end < v.len() && ident_rest(v[end])
                invariant
                    pos < end <= v.len(),
                    ident_end(v@, pos + 1) == ident_end(v@, end as int),
                decreases v.len() - end,
            {
                end = end + 1;
            }
            token = Some(Token::Ident(string_of_range(&v, pos, end)));
            pos = end;
        } else {
            return None;
        }
        match token {
            Some(token) => {
                tokens.push(token);
                proof {
                    assert(tokens.deep_view() =~= before.push(token@));
                    match lex_from(v@, pos as int) {
                        Some(rest) => {
                            assert(before + (seq![token@] + rest) =~= tokens.deep_view() + rest);
                        },
                        None => {},
                    }
                }
            },
            None => {},
        }
    }
    assert(tokens.deep_view() + Seq::<TokenView>::empty() =~= tokens.deep_view());
    Some(tokens)
}


/// Whether the token at position `pos` is the given sign.
pub open spec fn sign_at(ts: Seq<TokenView>, pos: int, sign: TokenView) -> bool {
    0 <= pos < ts.len() && ts[pos] == sign
}

/// The condition that begins at token `pos`, with the position behind it.
///
/// A condition is a name; a name, `=` and a quoted value; `not(..)` around
/// one condition; `all(..)` or `any(..)` around one or more conditions
/// with commas between them; or `cfg(..)` around one condition, which then
/// stands for that condition.
pub open spec fn parse_expr(ts: Seq<TokenView>, pos: int) -> Option<(CfgExprView, int)>
    decreases ts.len() - pos, 1int,
{
    if pos < 0 || pos >= ts.len() {
        None
    } else {
        match ts[pos] {
            TokenView::Ident(word) => {
                if word == "all"@ || word == "any"@ {
                    if sign_at(ts, pos + 1, TokenView::LeftParen) {
                        match parse_list(ts, pos + 2) {
                            Some((list, next)) => Some(
                                (
                                    if word == "all"@ {
                                        CfgExprView::All(list)
                                    } else {
                                        CfgExprView::Any(list)
                                    },
                                    next,
                                ),
                            ),
                            None => None,
                        }
                    } else {
                        None
                    }
                } else if word == "not"@ || (word == "cfg"@ && sign_at(ts, pos + 1, TokenView::LeftParen)) {
                    if sign_at(ts, pos + 1, TokenView::LeftParen) {
                        match parse_expr(ts, pos + 2) {
                            Some((inner, next)) => if sign_at(ts, next, TokenView::RightParen) {
                                Some(
                                    (
                                        if word == "not"@ {
                                            CfgExprView::Not(Box::new(inner))
                                        } else {
                                            inner
                                        },
                                        next + 1,
                                    ),
                                )
                            } else {
                                None
                            },
                            None => None,
                        }
                    } else {
                        None
                    }
                } else if sign_at(ts, pos + 1, TokenView::Equals) {
                    if pos + 2 < ts.len() && ts[pos + 2] is Text {
                        Some((CfgExprView::KeyPair(word, ts[pos + 2]->Text_0), pos + 3))
                    } else {
                        None
                    }
                } else {
                    Some((CfgExprView::Name(word), pos + 1))
                }
            },
            _ => None,
        }
    }
}

/// The conditions that begin at token `pos`, with commas between them, up
/// to the closing parenthesis, with the position behind that parenthesis.
pub open spec fn parse_list(ts: Seq<TokenView>, pos: int) -> Option<(Seq<CfgExprView>, int)>
    decreases ts.len() - pos, 2int,
{
    match parse_expr(ts, pos) {
        None => None,
        Some((first, next)) => {
            if next <= pos || next >= ts.len() {
                None
            } else if ts[next] == TokenView::RightParen {
                Some((seq![first], next + 1))
            } else if ts[next] == TokenView::Comma {
                match parse_list(ts, next + 1) {
                    Some((rest, end)) => Some((seq![first] + rest, end)),
                    None => None,
                }
            } else {
                None
            }
        },
    }
}

/// The condition that a sequence of tokens spells, all tokens being used.
pub open spec fn parse_tokens(ts: Seq<TokenView>) -> Option<CfgExprView> {
    match parse_expr(ts, 0) {
        Some((e, next)) => if next == ts.len() {
            Some(e)
        } else {
            None
        },
        None => None,
    }
}

/// The condition that a text spells.
pub open spec fn parsed(text: Seq<char>) -> Option<CfgExprView> {
    match lex(text) {
        Some(ts) => parse_tokens(ts),
        None => None,
    }
}

/// A text that spells no condition.
#[derive(Clone, Copy, Debug, PartialEq, Eq, Structural)]
pub struct MalformedExpression;

/// Whether the token at position `pos` is the given sign.
fn is_sign(tokens: &Vec<Token>, pos: usize, sign: &Token) -> (r: bool)
    requires
        sign is LeftParen || sign is RightParen || sign is Comma || sign is Equals,
    ensures
        r == sign_at(tokens.deep_view(), pos as int, sign@),
{
    if pos >= tokens.len() {
        return false;
    }
    assert(tokens.deep_view()[pos as int] == tokens[pos as int]@);
    match (&tokens[pos], sign) {
        (Token::LeftParen, Token::LeftParen) => true,
        (Token::RightParen, Token::RightParen) => true,
        (Token::Comma, Token::Comma) => true,
        (Token::Equals, Token::Equals) => true,
        _ => false,
    }
}

/// Reads the condition that begins at token `pos`.
fn read_expr(tokens: &Vec<Token>, pos: usize) -> (r: Option<(CfgExpr, usize)>)
    ensures
        match r {
            Some((e, next)) => parse_expr(tokens.deep_view(), pos as int) == Some((e@, next as int)) && pos < next
                <= tokens.len() && e@.wf(),
            None => parse_expr(tokens.deep_view(), pos as int) is None,
        },
    decreases tokens.len() - pos, 1int,
{
    let ghost ts = tokens.deep_view();
    if pos >= tokens.len() {
        return None;
    }
    assert(ts[pos as int] == tokens[pos as int]@);
    let word = match &tokens[pos] {
        Token::Ident(word) => word,
        _ => {
            return None;
        },
    };
    let is_all = crate::text::same_text(word.as_str(), "all");
    let is_any = crate::text::same_text(word.as_str(), "any");
    let is_not = crate::text::same_text(word.as_str(), "not");
    let is_cfg = crate::text::same_text(word.as_str(), "cfg");
    let opens = is_sign(tokens, pos + 1, &Token::LeftParen);
    if is_all || is_any {
        if !opens {
            return None;
        }
        match read_list(tokens, pos + 2) {
            Some((list, next)) => {
                let e = if is_all {
                    CfgExpr::All(list)
                } else {
                    CfgExpr::Any(list)
                };
                proof {
                    assert(members(e@) =~= views_of(list@));
                    assert forall|i: int| 0 <= i < list.len() implies (#[trigger] members(e@)[i]).wf() by {
                        assert(list[i]@.wf());
                    }
                }
                Some((e, next))
            },
            None => None,
        }
    } else if is_not || (is_cfg && opens) {
        if !opens {
            return None;
        }
        match read_expr(tokens, pos + 2) {
            Some((inner, next)) => {
                if !is_sign(tokens, next, &Token::RightParen) {
                    return None;
                }
                if is_not {
                    Some((CfgExpr::Not(Box::new(inner)), next + 1))
                } else {
                    Some((inner, next + 1))
                }
            },
            None => None,
        }
    } else if is_sign(tokens, pos + 1, &Token::Equals) {
        if pos + 2 >= tokens.len() {
            return None;
        }
        assert(ts[pos + 2] == tokens[pos + 2]@);
        match &tokens[pos + 2] {
            Token::Text(value) => Some(
                (CfgExpr::Value(Cfg::KeyPair(word.clone(), value.clone())), pos + 3),
            ),
            _ => None,
        }
    } else {
        Some((CfgExpr::Value(Cfg::Name(word.clone())), pos + 1))
    }
}

/// What reading a list gives once the conditions `before` are read and
/// what is left of the list gives `rest`.
pub open spec fn list_after(before: Seq<CfgExprView>, rest: Option<(Seq<CfgExprView>, int)>) -> Option<
    (Seq<CfgExprView>, int),
> {
    match rest {
        Some((more, end)) => Some((before + more, end)),
        None => None,
    }
}

/// Reads the conditions that begin at token `pos`, up to the closing parenthesis.
fn read_list(tokens: &Vec<Token>, pos: usize) -> (r: Option<(Vec<CfgExpr>, usize)>)
    ensures
        match r {
            Some((list, next)) => {
                &&& parse_list(tokens.deep_view(), pos as int) == Some((views_of(list@), next as int))
                &&& pos < next <= tokens.len()
                &&& list.len() > 0
                &&& forall|i: int| 0 <= i < list.len() ==> (#[trigger] list[i])@.wf()
            },
            None => parse_list(tokens.deep_view(), pos as int) is None,
        },
    decreases tokens.len() - pos, 2int,
{
    let ghost ts = tokens.deep_view();
    if pos >= tokens.len() {
        return None;
    }
    let mut list: Vec<CfgExpr> = Vec::new();
    let mut at: usize = pos;
    proof {
        match parse_list(ts, pos as int) {
            Some((rest, end)) => {
                assert(views_of(list@) + rest =~= rest);
            },
            None => {},
        }
    }
    loop
        invariant
            ts == tokens.deep_view(),
            pos <= at <= tokens.len(),
            at == pos <==> list.len() == 0,
            forall|i: int| 0 <= i < list.len() ==> (#[trigger] list[i])@.wf(),
            parse_list(ts, pos as int) == list_after(views_of(list@), parse_list(ts, at as int)),
        decreases tokens.len() - at,
    {
        let (item, next) = match read_expr(tokens, at) {
            Some(found) => found,
            None => {
                return None;
            },
        };
        if next >= tokens.len() {
            return None;
        }
        assert(ts[next as int] == tokens[next as int]@);
        let ghost before = views_of(list@);
        let ghost first = item@;
        list.push(item);
        assert(views_of(list@) =~= before.push(first));
        match &tokens[next] {
            Token::RightParen => {
                assert(before + seq![first] =~= views_of(list@));
                return Some((list, next + 1));
            },
            Token::Comma => {
                proof {
                    match parse_list(ts, next + 1) {
                        Some((rest, end)) => {
                            assert(before + (seq![first] + rest) =~= views_of(list@) + rest);
                        },
                        None => {},
                    }
                }
                at = next + 1;
            },
            _ => {
                return None;
            },
        }
    }
}

impl CfgExpr {
    /// Reads a condition from its text.
    pub fn from_str(text: &str) -> (r: Result<CfgExpr, MalformedExpression>)
        ensures
            r is Ok <==> parsed(text@) is Some,
            r matches Ok(e) ==> Some(e@) == parsed(text@) && e@.wf(),
    {
        let tokens = match tokenize(text) {
            Some(tokens) => tokens,
            None => {
                return Err(MalformedExpression);
            },
        };
        match read_expr(&tokens, 0) {
            Some((e, next)) => {
                if next == tokens.len() {
                    Ok(e)
                } else {
                    Err(MalformedExpression)
                }
            },
            None => Err(MalformedExpression),
        }
    }
}


/// Whether a word has a meaning of its own in the text of a condition.
pub open spec fn is_reserved(word: Seq<char>) -> bool {
    word == "all"@ || word == "any"@ || word == "not"@
}

impl CfgExprView {
    /// Whether the condition can be written down: every `all` and `any`
    /// has a member, and no name and no key is a reserved word.
    pub open spec fn writable(self) -> bool
        decreases self,
    {
        match self {
            CfgExprView::Not(inner) => inner.writable(),
            CfgExprView::All(list) => list.len() > 0 && forall|i: int|
                0 <= i < list.len() ==> (#[trigger] list[i]).writable(),
            CfgExprView::Any(list) => list.len() > 0 && forall|i: int|
                0 <= i < list.len() ==> (#[trigger] list[i]).writable(),
            CfgExprView::Name(name) => !is_reserved(name),
            CfgExprView::KeyPair(key, _) => !is_reserved(key),
        }
    }
}

/// The tokens by which a condition is written down.
pub open spec fn tokens_of(e: CfgExprView) -> Seq<TokenView>
    decreases e, 0nat,
{
    match e {
        CfgExprView::Name(name) => seq![TokenView::Ident(name)],
        CfgExprView::KeyPair(key, value) => seq![TokenView::Ident(key), TokenView::Equals, TokenView::Text(value)],
        CfgExprView::Not(inner) => seq![TokenView::Ident("not"@), TokenView::LeftParen] + tokens_of(*inner)
            + seq![TokenView::RightParen],
        CfgExprView::All(list) => seq![TokenView::Ident("all"@), TokenView::LeftParen] + tokens_from(list, 0)
            + seq![TokenView::RightParen],
        CfgExprView::Any(list) => seq![TokenView::Ident("any"@), TokenView::LeftParen] + tokens_from(list, 0)
            + seq![TokenView::RightParen],
    }
}

/// The tokens by which the conditions of a list from position `from` on
/// are written down, with commas between them.
pub open spec fn tokens_from(list: Seq<CfgExprView>, from: int) -> Seq<TokenView>
    decreases list, list.len() - from,
{
    if from < 0 || from >= list.len() {
        Seq::empty()
    } else if from + 1 == list.len() {
        tokens_of(list[from])
    } else {
        tokens_of(list[from]) + seq![TokenView::Comma] + tokens_from(list, from + 1)
    }
}

/// Whether a condition can end before the token at position `at`.
pub open spec fn ends_before(ts: Seq<TokenView>, at: int) -> bool {
    at == ts.len() || (0 <= at < ts.len() && (ts[at] == TokenView::Comma || ts[at] == TokenView::RightParen))
}

proof fn lemma_tokens_nonempty(e: CfgExprView)
    ensures
        tokens_of(e).len() >= 1,
{
}

proof fn lemma_reserved_words()
    ensures
        "all"@ != "any"@,
        "all"@ != "not"@,
        "any"@ != "not"@,
        "cfg"@ != "all"@,
        "cfg"@ != "any"@,
        "cfg"@ != "not"@,
{
    reveal_strlit("all");
    reveal_strlit("any");
    reveal_strlit("not");
    reveal_strlit("cfg");
    assert("all"@[1] == 'l');
    assert("any"@[1] == 'n');
    assert("not"@[1] == 'o');
    assert("cfg"@[1] == 'f');
}

proof fn lemma_parse_written(ts: Seq<TokenView>, pos: int, e: CfgExprView)
    requires
        e.writable(),
        0 <= pos,
        pos + tokens_of(e).len() <= ts.len(),
        ts.subrange(pos, pos + tokens_of(e).len()) == tokens_of(e),
        ends_before(ts, pos + tokens_of(e).len()),
    ensures
        parse_expr(ts, pos) == Some((e, pos + tokens_of(e).len())),
    decreases e, 1nat,
{
    let tokens = tokens_of(e);
    let end = pos + tokens.len();
    lemma_reserved_words();
    assert forall|i: int| 0 <= i < tokens.len() implies ts[pos + i] == tokens[i] by {
        assert(ts.subrange(pos, end)[i] == ts[pos + i]);
    }
    match e {
        CfgExprView::Name(name) => {
            assert(ts[pos] == tokens[0]);
        },
        CfgExprView::KeyPair(key, value) => {
            assert(ts[pos] == tokens[0]);
            assert(ts[pos + 1] == tokens[1]);
            assert(ts[pos + 2] == tokens[2]);
        },
        CfgExprView::Not(inner) => {
            let within = tokens_of(*inner);
            assert(ts[pos] == tokens[0]);
            assert(ts[pos + 1] == tokens[1]);
            assert(ts[pos + (2 + within.len())] == tokens[(2 + within.len()) as int]);
            assert(ts.subrange(pos + 2, pos + 2 + within.len()) =~= within) by {
                assert forall|i: int| 0 <= i < within.len() implies ts[pos + 2 + i] == within[i] by {
                    assert(ts[pos + (2 + i)] == tokens[2 + i]);
                }
            }
            lemma_parse_written(ts, pos + 2, *inner);
            assert(e == CfgExprView::Not(Box::new(*inner)));
        },
        CfgExprView::All(list) => {
            let within = tokens_from(list, 0);
            assert(ts[pos] == tokens[0]);
            assert(ts[pos + 1] == tokens[1]);
            assert(ts[pos + (2 + within.len())] == tokens[(2 + within.len()) as int]);
            assert(ts.subrange(pos + 2, pos + 2 + within.len()) =~= within) by {
                assert forall|i: int| 0 <= i < within.len() implies ts[pos + 2 + i] == within[i] by {
                    assert(ts[pos + (2 + i)] == tokens[2 + i]);
                }
            }
            lemma_parse_written_list(ts, pos + 2, list, 0);
            assert(list.skip(0) =~= list);
        },
        CfgExprView::Any(list) => {
            let within = tokens_from(list, 0);
            assert(ts[pos] == tokens[0]);
            assert(ts[pos + 1] == tokens[1]);
            assert(ts[pos + (2 + within.len())] == tokens[(2 + within.len()) as int]);
            assert(ts.subrange(pos + 2, pos + 2 + within.len()) =~= within) by {
                assert forall|i: int| 0 <= i < within.len() implies ts[pos + 2 + i] == within[i] by {
                    assert(ts[pos + (2 + i)] == tokens[2 + i]);
                }
            }
            lemma_parse_written_list(ts, pos + 2, list, 0);
            assert(list.skip(0) =~= list);
        },
    }
}

proof fn lemma_parse_written_list(ts: Seq<TokenView>, pos: int, list: Seq<CfgExprView>, from: int)
    requires
        0 <= from < list.len(),
        forall|i: int| 0 <= i < list.len() ==> (#[trigger] list[i]).writable(),
        0 <= pos,
        pos + tokens_from(list, from).len() < ts.len(),
        ts.subrange(pos, pos + tokens_from(list, from).len()) == tokens_from(list, from),
        ts[pos + tokens_from(list, from).len()] == TokenView::RightParen,
    ensures
        parse_list(ts, pos) == Some((list.skip(from), pos + tokens_from(list, from).len() + 1)),
    decreases list, list.len() - from,
{
    let tokens = tokens_from(list, from);
    let first = tokens_of(list[from]);
    lemma_tokens_nonempty(list[from]);
    assert forall|i: int| 0 <= i < tokens.len() implies ts[pos + i] == tokens[i] by {
        assert(ts.subrange(pos, pos + tokens.len())[i] == ts[pos + i]);
    }
    assert(ts.subrange(pos, pos + first.len()) =~= first) by {
        assert forall|i: int| 0 <= i < first.len() implies ts[pos + i] == first[i] by {
            assert(tokens[i] == first[i]);
        }
    }
    if from + 1 == list.len() {
        lemma_parse_written(ts, pos, list[from]);
        assert(list.skip(from) =~= seq![list[from]]);
    } else {
        let rest = tokens_from(list, from + 1);
        assert(ts[pos + first.len()] == tokens[first.len() as int]);
        lemma_parse_written(ts, pos, list[from]);
        let next = pos + first.len() + 1;
        assert(ts.subrange(next, next + rest.len()) =~= rest) by {
            assert forall|i: int| 0 <= i < rest.len() implies ts[next + i] == rest[i] by {
                assert(ts[pos + (first.len() + 1 + i)] == tokens[(first.len() + 1 + i) as int]);
            }
        }
        lemma_parse_written_list(ts, next, list, from + 1);
        assert(seq![list[from]] + list.skip(from + 1) =~= list.skip(from));
    }
}

/// Every condition that can be written down is read back from its tokens.
pub proof fn law_written_condition_is_parsed(e: CfgExprView)
    requires
        e.writable(),
    ensures
        parse_tokens(tokens_of(e)) == Some(e),
{
    let ts = tokens_of(e);
    assert(ts.subrange(0, ts.len() as int) =~= ts);
    lemma_parse_written(ts, 0, e);
}

} // verus!
