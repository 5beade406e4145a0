//! Notification format templates: `%a`, `%s`, `%b`, `%c`, `%d`, `%u`, `%p`
//! and `%S` fields between literal text.

use vstd::prelude::*;

use crate::lexer::{
    identifier_end, is_identifier_continue_char, is_identifier_start_char, lex, lex_from,
    lemma_lex_round_trip, literal_end, token_text, tokens_text, LexError, Lexer, Token, TokenModel,
};
use crate::lemmas::{lemma_map_push, lemma_take_push};
use crate::notification::{chars_or_empty, Notification};
use crate::text::{i64_to_decimal, push_char, signed_decimal, str_eq, u64_to_decimal, decimal_digits};

verus! {

broadcast use vstd::string::group_string_axioms;

#[derive(Clone, Copy, Debug, PartialEq, Eq, Structural)]
pub enum TemplateField {
    AppName,
    Summary,
    Body,
    Category,
    DesktopEntry,
    Urgency,
    Progress,
    StackTag,
}

#[derive(Clone, Copy, Debug, PartialEq, Eq, Structural)]
pub enum TemplateElement {
    Literal,
    AppName,
    Summary,
    Body,
    Details,
}

pub enum TemplateToken {
    Literal(String),
    Field(TemplateField),
}

/// The content of a [`TemplateToken`].
pub enum TemplateTokenModel {
    Literal(Seq<char>),
    Field(TemplateField),
}

impl View for TemplateToken {
    type V = TemplateTokenModel;

    open spec fn view(&self) -> TemplateTokenModel {
        match self {
            TemplateToken::Literal(s) => TemplateTokenModel::Literal(s@),
            TemplateToken::Field(f) => TemplateTokenModel::Field(*f),
        }
    }
}

#[derive(Debug)]
pub enum TemplateError {
    Lex(LexError),
    UnknownField(String),
}

/// The content of a [`TemplateError`].
pub enum TemplateErrorModel {
    Lex(LexError),
    UnknownField(Seq<char>),
}

impl View for TemplateError {
    type V = TemplateErrorModel;

    open spec fn view(&self) -> TemplateErrorModel {
        match self {
            TemplateError::Lex(e) => TemplateErrorModel::Lex(*e),
            TemplateError::UnknownField(s) => TemplateErrorModel::UnknownField(s@),
        }
    }
}

pub struct TemplateRun {
    pub text: String,
    pub element: TemplateElement,
}

pub struct NotificationTemplate {
    tokens: Vec<TemplateToken>,
}

/// The field a marker name stands for.
pub open spec fn field_named(name: Seq<char>) -> Option<TemplateField> {
    if name == seq!['a'] {
        Some(TemplateField::AppName)
    } else if name == seq!['s'] {
        Some(TemplateField::Summary)
    } else if name == seq!['b'] {
        Some(TemplateField::Body)
    } else if name == seq!['c'] {
        Some(TemplateField::Category)
    } else if name == seq!['d'] {
        Some(TemplateField::DesktopEntry)
    } else if name == seq!['u'] {
        Some(TemplateField::Urgency)
    } else if name == seq!['p'] {
        Some(TemplateField::Progress)
    } else if name == seq!['S'] {
        Some(TemplateField::StackTag)
    } else {
        None
    }
}

/// The template token for a lexer token, or the unknown field name.
pub open spec fn template_token_of(t: TokenModel) -> Result<TemplateTokenModel, Seq<char>> {
    match t {
        TokenModel::Literal(text) => Ok(TemplateTokenModel::Literal(text)),
        TokenModel::Identifier(name) => match field_named(name) {
            Some(f) => Ok(TemplateTokenModel::Field(f)),
            None => Err(name),
        },
    }
}

/// The template tokens for `ts[i..]`, or the first unknown field name.
pub open spec fn template_tokens_from(ts: Seq<TokenModel>, i: int) -> Result<
    Seq<TemplateTokenModel>,
    Seq<char>,
>
    decreases ts.len() - i,
{
    if i < 0 || i >= ts.len() {
        Ok(seq![])
    } else {
        match template_token_of(ts[i]) {
            Err(name) => Err(name),
            Ok(t) => match template_tokens_from(ts, i + 1) {
                Ok(rest) => Ok(seq![t] + rest),
                Err(name) => Err(name),
            },
        }
    }
}

/// Puts `ts` in front of the tokens of a successful conversion.
pub open spec fn prepend_models(
    ts: Seq<TemplateTokenModel>,
    rest: Result<Seq<TemplateTokenModel>, Seq<char>>,
) -> Result<Seq<TemplateTokenModel>, Seq<char>> {
    match rest {
        Ok(more) => Ok(ts + more),
        Err(name) => Err(name),
    }
}

/// The tokens of a format string, or why it is rejected.
pub open spec fn parse_template(s: Seq<char>) -> Result<Seq<TemplateTokenModel>, TemplateErrorModel> {
    match lex(s) {
        Err(e) => Err(TemplateErrorModel::Lex(e)),
        Ok(ts) => match template_tokens_from(ts, 0) {
            Ok(tokens) => Ok(tokens),
            Err(name) => Err(TemplateErrorModel::UnknownField(name)),
        },
    }
}

/// The tokens of the built-in layout: the summary, a line break, the body.
pub open spec fn default_layout() -> Seq<TemplateTokenModel> {
    seq![
        TemplateTokenModel::Field(TemplateField::Summary),
        TemplateTokenModel::Literal(seq!['\n']),
        TemplateTokenModel::Field(TemplateField::Body),
    ]
}

/// The text a field shows for a notification.
pub open spec fn resolve_field(f: TemplateField, n: Notification) -> Seq<char> {
    match f {
        TemplateField::AppName => n.app_name@,
        TemplateField::Summary => n.summary@,
        TemplateField::Body => n.body@,
        TemplateField::Category => chars_or_empty(n.hints.category),
        TemplateField::DesktopEntry => chars_or_empty(n.hints.desktop_entry),
        TemplateField::Urgency => match n.hints.urgency {
            Some(u) => decimal_digits(u as nat),
            None => Seq::empty(),
        },
        TemplateField::Progress => match n.hints.progress {
            Some(p) => signed_decimal(p as int),
            None => Seq::empty(),
        },
        TemplateField::StackTag => chars_or_empty(n.hints.stack_tag),
    }
}

/// The element a field is styled as.
pub open spec fn element_of(f: TemplateField) -> TemplateElement {
    match f {
        TemplateField::AppName => TemplateElement::AppName,
        TemplateField::Summary => TemplateElement::Summary,
        TemplateField::Body => TemplateElement::Body,
        _ => TemplateElement::Details,
    }
}

/// The text and element a template token yields for a notification.
pub open spec fn run_of(t: TemplateTokenModel, n: Notification) -> (Seq<char>, TemplateElement) {
    match t {
        TemplateTokenModel::Literal(text) => (text, TemplateElement::Literal),
        TemplateTokenModel::Field(f) => (resolve_field(f, n), element_of(f)),
    }
}

/// The text of a sequence of runs, one after the other.
pub open spec fn joined(runs: Seq<(Seq<char>, TemplateElement)>) -> Seq<char>
    decreases runs.len(),
{
    if runs.len() == 0 {
        Seq::empty()
    } else {
        joined(runs.drop_last()) + runs.last().0
    }
}

/// What a template renders for a notification.
pub open spec fn render_model(tokens: Seq<TemplateTokenModel>, n: Notification) -> Seq<char> {
    joined(tokens.map_values(|t: TemplateTokenModel| run_of(t, n)))
}

impl TemplateField {
    /// The element this field is styled as.
    pub fn element(self) -> (e: TemplateElement)
        ensures
            e == element_of(self),
    {
        match self {
            TemplateField::AppName => TemplateElement::AppName,
            TemplateField::Summary => TemplateElement::Summary,
            TemplateField::Body => TemplateElement::Body,
            TemplateField::Category
            | TemplateField::DesktopEntry
            | TemplateField::Urgency
            | TemplateField::Progress
            | TemplateField::StackTag => TemplateElement::Details,
        }
    }

    /// The text of this field for a notification; absent hints give "".
    pub fn resolve(self, notification: &Notification) -> (s: String)
        ensures
            s@ == resolve_field(self, *notification),
    {
        match self {
            TemplateField::AppName => notification.app_name.clone(),
            TemplateField::Summary => notification.summary.clone(),
            TemplateField::Body => notification.body.clone(),
            TemplateField::Category => string_or_empty(notification.category()),
            TemplateField::DesktopEntry => string_or_empty(notification.desktop_entry()),
            TemplateField::Urgency => match notification.urgency() {
                Some(value) => u64_to_decimal(value as u64),
                None => String::new(),
            },
            TemplateField::Progress => match notification.progress() {
                Some(value) => i64_to_decimal(value as i64),
                None => String::new(),
            },
            TemplateField::StackTag => string_or_empty(notification.stack_tag()),
        }
    }
}

fn string_or_empty(s: Option<&str>) -> (r: String)
    ensures
        r@ == (match s {
            Some(s) => s@,
            None => Seq::empty(),
        }),
{
    match s {
        Some(s) => s.to_owned(),
        None => String::new(),
    }
}

impl TemplateToken {
    /// The template token for a lexer token; an identifier must name a field.
    pub fn try_from(token: &Token) -> (r: Result<TemplateToken, TemplateError>)
        ensures
            match template_token_of(token@) {
                Ok(t) => r is Ok && r->Ok_0@ == t,
                Err(name) => r is Err && r->Err_0@ == TemplateErrorModel::UnknownField(name),
            },
    {
        match token {
            Token::Literal(text) => {
                let copy = text.clone();
                assert(token@ == TokenModel::Literal(text@));
                Ok(TemplateToken::Literal(copy))
            },
            Token::Identifier(identifier) => {
                let name = identifier.as_str();
                proof {
                    reveal_strlit("a");
                    reveal_strlit("s");
                    reveal_strlit("b");
                    reveal_strlit("c");
                    reveal_strlit("d");
                    reveal_strlit("u");
                    reveal_strlit("p");
                    reveal_strlit("S");
                    assert("a"@ =~= seq!['a']);
                    assert("s"@ =~= seq!['s']);
                    assert("b"@ =~= seq!['b']);
                    assert("c"@ =~= seq!['c']);
                    assert("d"@ =~= seq!['d']);
                    assert("u"@ =~= seq!['u']);
                    assert("p"@ =~= seq!['p']);
                    assert("S"@ =~= seq!['S']);
                }
                let field = if str_eq(name, "a") {
                    TemplateField::AppName
                } else if str_eq(name, "s") {
                    TemplateField::Summary
                } else if str_eq(name, "b") {
                    TemplateField::Body
                } else if str_eq(name, "c") {
                    TemplateField::Category
                } else if str_eq(name, "d") {
                    TemplateField::DesktopEntry
                } else if str_eq(name, "u") {
                    TemplateField::Urgency
                } else if str_eq(name, "p") {
                    TemplateField::Progress
                } else if str_eq(name, "S") {
                    TemplateField::StackTag
                } else {
                    return Err(TemplateError::UnknownField(identifier.clone()));
                };
                Ok(TemplateToken::Field(field))
            },
        }
    }
}

impl View for NotificationTemplate {
    type V = Seq<TemplateTokenModel>;

    closed spec fn view(&self) -> Seq<TemplateTokenModel> {
        self.tokens@.map_values(|t: TemplateToken| t@)
    }
}

impl NotificationTemplate {
    /// Parses a format string; fails on a malformed marker or an unknown field.
    pub fn parse(input: &str) -> (r: Result<Self, TemplateError>)
        ensures
            match parse_template(input@) {
                Ok(tokens) => r is Ok && r->Ok_0@ == tokens,
                Err(e) => r is Err && r->Err_0@ == e,
            },
    {
        let lexed = Lexer::new(input).tokenize();
        let tokens = match lexed {
            Ok(tokens) => tokens,
            Err(e) => {
                return Err(TemplateError::Lex(e));
            },
        };
        let ghost models = tokens@.map_values(|t: Token| t@);
        let mut converted: Vec<TemplateToken> = Vec::new();
        let mut i: usize = 0;
        proof {
            assert(models =~= crate::lexer::token_models(tokens@));
            assert(prepend_models(Seq::empty(), template_tokens_from(models, 0))
                =~= template_tokens_from(models, 0)) by {
                match template_tokens_from(models, 0) {
                    Ok(all) => {
                        assert(Seq::<TemplateTokenModel>::empty() + all =~= all);
                    },
                    Err(_) => {},
                }
            }
        }
        while i < tokens.len()
            invariant
                i <= tokens@.len(),
                models == tokens@.map_values(|t: Token| t@),
                lex(input@) == Ok::<Seq<TokenModel>, LexError>(models),
                template_tokens_from(models, 0) == prepend_models(
                    converted@.map_values(|t: TemplateToken| t@),
                    template_tokens_from(models, i as int),
                ),
            decreases tokens@.len() - i,
        {
            let next = TemplateToken::try_from(&tokens[i]);
            match next {
                Ok(t) => {
                    let ghost before = converted@.map_values(|t: TemplateToken| t@);
                    converted.push(t);
                    proof {
                        assert(converted@.map_values(|t: TemplateToken| t@) =~= before.push(t@));
                        match template_tokens_from(models, i + 1) {
                            Ok(rest) => {
                                assert(before + (seq![t@] + rest) =~= before.push(t@) + rest);
                            },
                            Err(_) => {},
                        }
                    }
                },
                Err(e) => {
                    return Err(e);
                },
            }
            i = i + 1;
        }
        proof {
            assert(converted@.map_values(|t: TemplateToken| t@) + Seq::<TemplateTokenModel>::empty()
                =~= converted@.map_values(|t: TemplateToken| t@));
        }
        Ok(NotificationTemplate { tokens: converted })
    }

    /// Whether the template is the built-in summary-newline-body layout.
    pub fn is_default_layout(&self) -> (b: bool)
        ensures
            b == (self@ == default_layout()),
    {
        proof {
            reveal_strlit("\n");
            assert("\n"@ =~= seq!['\n']);
        }
        if self.tokens.len() != 3 {
            proof {
                if self@ == default_layout() {
                    assert(self@.len() == 3);
                }
            }
            return false;
        }
        let first = match &self.tokens[0] {
            TemplateToken::Field(TemplateField::Summary) => true,
            _ => false,
        };
        let second = match &self.tokens[1] {
            TemplateToken::Literal(newline) => str_eq(newline.as_str(), "\n"),
            _ => false,
        };
        let third = match &self.tokens[2] {
            TemplateToken::Field(TemplateField::Body) => true,
            _ => false,
        };
        proof {
            if self@ == default_layout() {
                assert(self@[0] == default_layout()[0]);
                assert(self@[1] == default_layout()[1]);
                assert(self@[2] == default_layout()[2]);
            }
            if first && second && third {
                assert(self@ =~= default_layout());
            }
        }
        first && second && third
    }

    /// The text and style element of each token for a notification.
    pub fn runs(&self, notification: &Notification) -> (runs: Vec<TemplateRun>)
        ensures
            runs@.map_values(|r: TemplateRun| (r.text@, r.element)) == self@.map_values(
                |t: TemplateTokenModel| run_of(t, *notification),
            ),
    {
        let mut runs: Vec<TemplateRun> = Vec::new();
        let mut i: usize = 0;
        while i < self.tokens.len()
            invariant
                i <= self.tokens@.len(),
                runs@.map_values(|r: TemplateRun| (r.text@, r.element)) == self.tokens@.take(
                    i as int,
                ).map_values(|t: TemplateToken| run_of(t@, *notification)),
            decreases self.tokens@.len() - i,
        {
            let run = match &self.tokens[i] {
                TemplateToken::Literal(text) => TemplateRun {
                    text: text.clone(),
                    element: TemplateElement::Literal,
                },
                TemplateToken::Field(field) => TemplateRun {
                    text: field.resolve(notification),
                    element: field.element(),
                },
            };
            assert((run.text@, run.element) == run_of(self.tokens@[i as int]@, *notification));
            let ghost before = runs@;
            runs.push(run);
            proof {
                assert(runs@ =~= before.push(run));
                let lhs = runs@.map_values(|r: TemplateRun| (r.text@, r.element));
                let rhs = self.tokens@.take(i + 1).map_values(
                    |t: TemplateToken| run_of(t@, *notification),
                );
                let prev = self.tokens@.take(i as int).map_values(
                    |t: TemplateToken| run_of(t@, *notification),
                );
                assert(prev.len() == i);
                assert(before.map_values(|r: TemplateRun| (r.text@, r.element)).len() == before.len());
                assert(before.len() == i);
                assert forall|j: int| 0 <= j < i implies lhs[j] == rhs[j] by {
                    assert(lhs[j] == (before[j].text@, before[j].element));
                    assert(before.map_values(|r: TemplateRun| (r.text@, r.element))[j] == prev[j]);
                    assert(self.tokens@.take(i as int)[j] == self.tokens@.take(i + 1)[j]);
                }
                assert(lhs.len() == rhs.len());
                assert(lhs[i as int] == rhs[i as int]);
                assert(runs@.map_values(|r: TemplateRun| (r.text@, r.element)) =~= self.tokens@.take(
                    i + 1,
                ).map_values(|t: TemplateToken| run_of(t@, *notification)));
            }
            i = i + 1;
        }
        proof {
            assert(self.tokens@.take(self.tokens@.len() as int) =~= self.tokens@);
            assert(self.tokens@.map_values(|t: TemplateToken| run_of(t@, *notification))
                =~= self@.map_values(|t: TemplateTokenModel| run_of(t, *notification)));
        }
        runs
    }

    /// The text of all runs, one after the other.
    pub fn render(&self, notification: &Notification) -> (s: String)
        ensures
            s@ == render_model(self@, *notification),
    {
        let runs = self.runs(notification);
        let ghost models = runs@.map_values(|r: TemplateRun| (r.text@, r.element));
        let mut output = String::new();
        let mut i: usize = 0;
        proof {
            assert(models.take(0) =~= Seq::<(Seq<char>, TemplateElement)>::empty());
        }
        while i < runs.len()
            invariant
                i <= runs@.len(),
                models == runs@.map_values(|r: TemplateRun| (r.text@, r.element)),
                output@ == joined(models.take(i as int)),
            decreases runs@.len() - i,
        {
            output.append(runs[i].text.as_str());
            proof {
                assert(models.take(i + 1).drop_last() =~= models.take(i as int));
            }
            i = i + 1;
        }
        proof {
            assert(models.take(runs@.len() as int) =~= models);
        }
        output
    }
}

impl Default for NotificationTemplate {
    /// The summary, a line break, then the body.
    fn default() -> (t: Self)
        ensures
            t@ == default_layout(),
    {
        let mut newline = String::new();
        push_char(&mut newline, '\n');
        let tokens = vec![
            TemplateToken::Field(TemplateField::Summary),
            TemplateToken::Literal(newline),
            TemplateToken::Field(TemplateField::Body),
        ];
        let t = NotificationTemplate { tokens };
        assert(t@ =~= default_layout());
        t
    }
}

impl Clone for TemplateToken {
    fn clone(&self) -> (t: Self)
        ensures
            t@ == self@,
    {
        match self {
            TemplateToken::Literal(text) => TemplateToken::Literal(text.clone()),
            TemplateToken::Field(field) => TemplateToken::Field(*field),
        }
    }
}

impl Clone for NotificationTemplate {
    fn clone(&self) -> (t: Self)
        ensures
            t@ == self@,
    {
        let mut tokens: Vec<TemplateToken> = Vec::new();
        let mut i: usize = 0;
        while i < self.tokens.len()
            invariant
                i <= self.tokens@.len(),
                tokens@.map_values(|t: TemplateToken| t@) == self.tokens@.take(i as int).map_values(
                    |t: TemplateToken| t@,
                ),
            decreases self.tokens@.len() - i,
        {
            let ghost before = tokens@;
            let token = self.tokens[i].clone();
            tokens.push(token);
            proof {
                assert(tokens@ =~= before.push(token));
                lemma_take_push(self.tokens@, i as int);
                lemma_map_push(before, token, |t: TemplateToken| t@);
                lemma_map_push(self.tokens@.take(i as int), self.tokens@[i as int], |t: TemplateToken| t@);
            }
            i = i + 1;
        }
        assert(self.tokens@.take(self.tokens@.len() as int) =~= self.tokens@);
        NotificationTemplate { tokens }
    }
}

/// The built-in layout is what the format string `%s\n%b` parses to.
pub proof fn lemma_default_layout_parses()
    ensures
        parse_template(seq!['%', 's', '\n', '%', 'b']) == Ok::<
            Seq<TemplateTokenModel>,
            TemplateErrorModel,
        >(default_layout()),
{
    let s = seq!['%', 's', '\n', '%', 'b'];
    assert(identifier_end(s, 5) == 5);
    assert(s.subrange(4, 5) =~= seq!['b']);
    assert(lex_from(s, 5) == Ok::<Seq<TokenModel>, LexError>(seq![]));
    assert(is_identifier_start_char(s[4]));
    let t3 = TokenModel::Identifier(seq!['b']);
    assert(lex_from(s, 3) == Ok::<Seq<TokenModel>, LexError>(seq![t3])) by {
        assert(seq![t3] + Seq::<TokenModel>::empty() =~= seq![t3]);
    }
    assert(literal_end(s, 3) == 3);
    assert(s.subrange(2, 3) =~= seq!['\n']);
    let t2 = TokenModel::Literal(seq!['\n']);
    assert(lex_from(s, 2) == Ok::<Seq<TokenModel>, LexError>(seq![t2, t3])) by {
        assert(seq![t2] + seq![t3] =~= seq![t2, t3]);
    }
    assert(!is_identifier_continue_char(s[2]));
    assert(identifier_end(s, 2) == 2);
    assert(s.subrange(1, 2) =~= seq!['s']);
    assert(is_identifier_start_char(s[1]));
    let t1 = TokenModel::Identifier(seq!['s']);
    assert(lex(s) == Ok::<Seq<TokenModel>, LexError>(seq![t1, t2, t3])) by {
        assert(seq![t1] + seq![t2, t3] =~= seq![t1, t2, t3]);
    }
    let ts = seq![t1, t2, t3];
    assert(template_tokens_from(ts, 3) == Ok::<Seq<TemplateTokenModel>, Seq<char>>(seq![]));
    let f1 = TemplateTokenModel::Field(TemplateField::Summary);
    let f2 = TemplateTokenModel::Literal(seq!['\n']);
    let f3 = TemplateTokenModel::Field(TemplateField::Body);
    assert(seq!['b'] != seq!['a']) by {
        assert(seq!['b'][0] != seq!['a'][0]);
    }
    assert(seq!['b'] != seq!['s']) by {
        assert(seq!['b'][0] != seq!['s'][0]);
    }
    assert(seq!['s'] != seq!['a']) by {
        assert(seq!['s'][0] != seq!['a'][0]);
    }
    assert(field_named(seq!['b']) == Some(TemplateField::Body));
    assert(field_named(seq!['s']) == Some(TemplateField::Summary));
    assert(template_tokens_from(ts, 2) == Ok::<Seq<TemplateTokenModel>, Seq<char>>(seq![f3])) by {
        assert(seq![f3] + Seq::<TemplateTokenModel>::empty() =~= seq![f3]);
    }
    assert(template_tokens_from(ts, 1) == Ok::<Seq<TemplateTokenModel>, Seq<char>>(seq![f2, f3])) by {
        assert(seq![f2] + seq![f3] =~= seq![f2, f3]);
    }
    assert(template_tokens_from(ts, 0) == Ok::<Seq<TemplateTokenModel>, Seq<char>>(
        seq![f1, f2, f3],
    )) by {
        assert(seq![f1] + seq![f2, f3] =~= seq![f1, f2, f3]);
    }
    assert(seq![f1, f2, f3] =~= default_layout());
}

proof fn lemma_template_tokens_from(ts: Seq<TokenModel>, i: int)
    requires
        0 <= i <= ts.len(),
    ensures
        template_tokens_from(ts, i) is Ok <==> forall|k: int|
            i <= k < ts.len() ==> #[trigger] template_token_of(ts[k]) is Ok,
        template_tokens_from(ts, i) is Ok ==> {
            let out = template_tokens_from(ts, i)->Ok_0;
            &&& out.len() == ts.len() - i
            &&& forall|k: int|
                0 <= k < out.len() ==> template_token_of(ts[i + k]) == Ok::<
                    TemplateTokenModel,
                    Seq<char>,
                >(#[trigger] out[k])
        },
        template_tokens_from(ts, i) is Err ==> exists|k: int|
            i <= k < ts.len() && template_token_of(ts[k]) == Err::<TemplateTokenModel, Seq<char>>(
                template_tokens_from(ts, i)->Err_0,
            ) && forall|j: int| i <= j < k ==> #[trigger] template_token_of(ts[j]) is Ok,
    decreases ts.len() - i,
{
    if i < ts.len() {
        lemma_template_tokens_from(ts, i + 1);
        if template_tokens_from(ts, i) is Err && template_token_of(ts[i]) is Ok {
            let k = choose|k: int|
                i + 1 <= k < ts.len() && template_token_of(ts[k]) == Err::<
                    TemplateTokenModel,
                    Seq<char>,
                >(template_tokens_from(ts, i + 1)->Err_0) && forall|j: int|
                    i + 1 <= j < k ==> #[trigger] template_token_of(ts[j]) is Ok;
            assert(forall|j: int| i <= j < k ==> #[trigger] template_token_of(ts[j]) is Ok);
        }
        if template_tokens_from(ts, i) is Err && template_token_of(ts[i]) is Err {
            assert(forall|j: int| i <= j < i ==> #[trigger] template_token_of(ts[j]) is Ok);
        }
        if template_tokens_from(ts, i) is Ok {
            let out = template_tokens_from(ts, i)->Ok_0;
            let rest = template_tokens_from(ts, i + 1)->Ok_0;
            assert forall|k: int| 0 <= k < out.len() implies template_token_of(ts[i + k]) == Ok::<
                TemplateTokenModel,
                Seq<char>,
            >(#[trigger] out[k]) by {
                if k > 0 {
                    assert(out[k] == rest[k - 1]);
                    assert(i + k == (i + 1) + (k - 1));
                }
            }
        }
        if forall|k: int| i <= k < ts.len() ==> #[trigger] template_token_of(ts[k]) is Ok {
            assert(template_token_of(ts[i]) is Ok);
        } else {
            let k = choose|k: int| i <= k < ts.len() && !(#[trigger] template_token_of(ts[k]) is Ok);
            if k == i {
            } else {
                assert(template_tokens_from(ts, i + 1) is Err);
            }
        }
    }
}

/// A format string parses exactly when the lexer accepts it and every
/// field marker in it names a known field; otherwise the lexer's error
/// comes first, then the first unknown field name.
pub proof fn lemma_parse_accepts(s: Seq<char>)
    ensures
        lex(s) is Err ==> parse_template(s) == Err::<Seq<TemplateTokenModel>, TemplateErrorModel>(
            TemplateErrorModel::Lex(lex(s)->Err_0),
        ),
        lex(s) is Ok && parse_template(s) is Err ==> exists|k: int|
            0 <= k < lex(s)->Ok_0.len() && lex(s)->Ok_0[k] == TokenModel::Identifier(
                parse_template(s)->Err_0->UnknownField_0,
            ) && parse_template(s)->Err_0 is UnknownField && field_named(
                parse_template(s)->Err_0->UnknownField_0,
            ) is None && forall|j: int|
                0 <= j < k ==> match #[trigger] lex(s)->Ok_0[j] {
                    TokenModel::Identifier(name) => field_named(name) is Some,
                    TokenModel::Literal(_) => true,
                },
        parse_template(s) is Ok <==> (lex(s) is Ok && forall|k: int|
            0 <= k < lex(s)->Ok_0.len() ==> match #[trigger] lex(s)->Ok_0[k] {
                TokenModel::Identifier(name) => field_named(name) is Some,
                TokenModel::Literal(_) => true,
            }),
{
    if lex(s) is Ok {
        let ts = lex(s)->Ok_0;
        lemma_template_tokens_from(ts, 0);
        assert forall|k: int| 0 <= k < ts.len() implies (#[trigger] template_token_of(ts[k]) is Ok
            <==> match ts[k] {
            TokenModel::Identifier(name) => field_named(name) is Some,
            TokenModel::Literal(_) => true,
        }) by {}
        if parse_template(s) is Ok {
            assert forall|k: int| 0 <= k < ts.len() implies match #[trigger] ts[k] {
                TokenModel::Identifier(name) => field_named(name) is Some,
                TokenModel::Literal(_) => true,
            } by {
                assert(template_token_of(ts[k]) is Ok);
            }
        } else {
            let k = choose|k: int| 0 <= k < ts.len() && !(#[trigger] template_token_of(ts[k]) is Ok);
            assert(!match ts[k] {
                TokenModel::Identifier(name) => field_named(name) is Some,
                TokenModel::Literal(_) => true,
            });
            let e = template_tokens_from(ts, 0)->Err_0;
            let f = choose|f: int|
                0 <= f < ts.len() && template_token_of(ts[f]) == Err::<TemplateTokenModel, Seq<char>>(e)
                    && forall|j: int| 0 <= j < f ==> #[trigger] template_token_of(ts[j]) is Ok;
            assert(ts[f] == TokenModel::Identifier(e));
            assert forall|j: int| 0 <= j < f implies match #[trigger] ts[j] {
                TokenModel::Identifier(name) => field_named(name) is Some,
                TokenModel::Literal(_) => true,
            } by {
                assert(template_token_of(ts[j]) is Ok);
            }
        }
    }
}

/// Only the text `%s`, a newline, `%b` parses to the built-in layout.
pub proof fn lemma_default_layout_text(s: Seq<char>)
    ensures
        parse_template(s) == Ok::<Seq<TemplateTokenModel>, TemplateErrorModel>(default_layout())
            <==> s == seq!['%', 's', '\n', '%', 'b'],
{
    lemma_default_layout_parses();
    if parse_template(s) == Ok::<Seq<TemplateTokenModel>, TemplateErrorModel>(default_layout()) {
        let ts = lex(s)->Ok_0;
        lemma_template_tokens_from(ts, 0);
        let out = template_tokens_from(ts, 0)->Ok_0;
        assert(out == default_layout());
        assert(ts.len() == 3);
        assert(template_token_of(ts[0]) == Ok::<TemplateTokenModel, Seq<char>>(out[0]));
        assert(template_token_of(ts[1]) == Ok::<TemplateTokenModel, Seq<char>>(out[1]));
        assert(template_token_of(ts[2]) == Ok::<TemplateTokenModel, Seq<char>>(out[2]));
        assert(ts[0] == TokenModel::Identifier(seq!['s']));
        assert(ts[1] == TokenModel::Literal(seq!['\n']));
        assert(ts[2] == TokenModel::Identifier(seq!['b']));
        lemma_lex_round_trip(s);
        let t2 = ts.drop_first().drop_first();
        assert(t2.drop_first() =~= Seq::<TokenModel>::empty());
        assert(t2[0] == ts[2]);
        assert(tokens_text(t2.drop_first()) == Seq::<char>::empty());
        assert(token_text(t2[0]) =~= seq!['%', 'b']);
        assert(tokens_text(t2) =~= seq!['%', 'b']);
        assert(ts.drop_first()[0] == ts[1]);
        assert(ts.drop_first().drop_first() == t2);
        assert(token_text(ts[1]) =~= seq!['\n']);
        assert(tokens_text(ts.drop_first()) =~= seq!['\n', '%', 'b']);
        assert(token_text(ts[0]) =~= seq!['%', 's']);
        assert(tokens_text(ts) =~= seq!['%', 's', '\n', '%', 'b']);
    }
}

} // verus!
