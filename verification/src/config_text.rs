//! The text of the configuration file: words, parentheses for lists and
//! braces for records.
//!
//! ```text
//! specs (
//!   { name <spec-name>
//!     source_url <url>
//!     include (<glob> ...)
//!     impls (
//!       { name <impl-name>
//!         include (<glob> ...)
//!         exclude (<glob> ...)
//!         test_include (<glob> ...)
//!       }
//!     )
//!   }
//! )
//! ```

use vstd::prelude::*;
use crate::config::{strs, Config, Impl, SpecConfig};
use crate::text::{chars_of, is_whitespace, slice_chars, str_same, string_of, whitespace};

verus! {

/// One token of a configuration text.
#[derive(Debug, Clone, PartialEq, Eq)]
pub enum Token {
    /// `(`
    ListStart,
    /// `)`
    ListEnd,
    /// `{`
    RecordStart,
    /// `}`
    RecordEnd,
    /// A run of other characters.
    Word(String),
}

/// The kinds of tokens, with the characters of words.
pub enum TokenView {
    ListStart,
    ListEnd,
    RecordStart,
    RecordEnd,
    Word(Seq<char>),
}

impl View for Token {
    type V = TokenView;

    open spec fn view(&self) -> TokenView {
        match *self {
            Token::ListStart => TokenView::ListStart,
            Token::ListEnd => TokenView::ListEnd,
            Token::RecordStart => TokenView::RecordStart,
            Token::RecordEnd => TokenView::RecordEnd,
            Token::Word(w) => TokenView::Word(w@),
        }
    }
}

/// The views of a list of tokens.
pub open spec fn token_views(tokens: Seq<Token>) -> Seq<TokenView> {
    tokens.map_values(|t: Token| t@)
}

/// Whether `c` is a bracket of the format.
pub open spec fn is_bracket(c: char) -> bool {
    c == '(' || c == ')' || c == '{' || c == '}'
}

/// The number of characters of the word that starts at `from`: up to the
/// next white space or bracket.
pub open spec fn word_len(s: Seq<char>, from: int) -> nat
    decreases s.len() - from,
{
    if from < 0 || from >= s.len() || is_whitespace(s[from]) || is_bracket(s[from]) {
        0
    } else {
        1 + word_len(s, from + 1)
    }
}

/// A word ends within the text.
pub proof fn lemma_word_len_bound(s: Seq<char>, from: int)
    requires
        0 <= from <= s.len(),
    ensures
        from + word_len(s, from) <= s.len(),
    decreases s.len() - from,
{
    if from < s.len() && !is_whitespace(s[from]) && !is_bracket(s[from]) {
        lemma_word_len_bound(s, from + 1);
    }
}

/// The tokens of `s` from `from` on: brackets stand for themselves, white
/// space separates, every other run of characters is a word.
pub open spec fn tokens_from(s: Seq<char>, from: int) -> Seq<TokenView>
    decreases s.len() - from,
{
    if from < 0 || from >= s.len() {
        Seq::empty()
    } else if is_whitespace(s[from]) {
        tokens_from(s, from + 1)
    } else if s[from] == '(' {
        seq![TokenView::ListStart] + tokens_from(s, from + 1)
    } else if s[from] == ')' {
        seq![TokenView::ListEnd] + tokens_from(s, from + 1)
    } else if s[from] == '{' {
        seq![TokenView::RecordStart] + tokens_from(s, from + 1)
    } else if s[from] == '}' {
        seq![TokenView::RecordEnd] + tokens_from(s, from + 1)
    } else {
        proof {
            lemma_word_len_bound(s, from);
        }
        seq![TokenView::Word(s.subrange(from, from + word_len(s, from)))] + tokens_from(
            s,
            from + word_len(s, from),
        )
    }
}

/// Splits a configuration text into tokens.
pub fn tokenize(text: &str) -> (tokens: Vec<Token>)
    ensures
        token_views(tokens@) == tokens_from(text@, 0),
{
    let s = chars_of(text);
    let mut tokens: Vec<Token> = Vec::new();
    let mut i: usize = 0;
    assert(token_views(tokens@) == Seq::<TokenView>::empty());
    while i < s.len()
        invariant
            i <= s@.len(),
            s@ == text@,
            tokens_from(s@, 0) == token_views(tokens@) + tokens_from(s@, i as int),
        decreases s@.len() - i,
    {
        let c = s[i];
        let ghost before = token_views(tokens@);
        if whitespace(c) {
            i += 1;
        } else if c == '(' || c == ')' || c == '{' || c == '}' {
            let token = if c == '(' {
                Token::ListStart
            } else if c == ')' {
                Token::ListEnd
            } else if c == '{' {
                Token::RecordStart
            } else {
                Token::RecordEnd
            };
            tokens.push(token);
            assert(token_views(tokens@) == before.push(token@));
            assert(before + (seq![token@] + tokens_from(s@, i + 1)) == before.push(token@)
                + tokens_from(s@, i + 1));
            i += 1;
        } else {
            let mut end: usize = i;
            while end < s.len() && !whitespace(s[end]) && !(s[end] == '(' || s[end] == ')' || s[end]
                == '{' || s[end] == '}')
                invariant
                    i <= end <= s@.len(),
                    i + word_len(s@, i as int) == end + word_len(s@, end as int),
                decreases s@.len() - end,
            {
                end += 1;
            }
            let word = slice_chars(s.as_slice(), i, end);
            let token = Token::Word(string_of(word.as_slice()));
            tokens.push(token);
            assert(token_views(tokens@) == before.push(token@));
            assert(before + (seq![token@] + tokens_from(s@, end as int)) == before.push(token@)
                + tokens_from(s@, end as int));
            i = end;
        }
    }
    assert(token_views(tokens@) + Seq::<TokenView>::empty() == token_views(tokens@));
    tokens
}

/// The number of words that stand in `tokens` from `from` on.
pub open spec fn words_run(tokens: Seq<TokenView>, from: int) -> nat
    decreases tokens.len() - from,
{
    if from < 0 || from >= tokens.len() || !(tokens[from] is Word) {
        0
    } else {
        1 + words_run(tokens, from + 1)
    }
}

/// What was read, and where the reading goes on.
pub struct Read<T> {
    pub value: T,
    pub next: int,
}

/// The words of `tokens[from..to]`.
pub open spec fn words_of(tokens: Seq<TokenView>, from: int, to: int) -> Seq<Seq<char>> {
    Seq::new(
        (to - from) as nat,
        |i: int| match tokens[from + i] {
            TokenView::Word(w) => w,
            _ => Seq::empty(),
        },
    )
}

/// The list of words at `pos`: `(`, words, `)`.
pub open spec fn word_list_at(tokens: Seq<TokenView>, pos: int) -> Option<Read<Seq<Seq<char>>>> {
    if pos < 0 || pos >= tokens.len() || !(tokens[pos] is ListStart) {
        None
    } else {
        let end = pos + 1 + words_run(tokens, pos + 1);
        if end >= tokens.len() || !(tokens[end] is ListEnd) {
            None
        } else {
            Some(Read { value: words_of(tokens, pos + 1, end), next: end + 1 })
        }
    }
}

/// The word at `pos`.
pub open spec fn word_at(tokens: Seq<TokenView>, pos: int) -> Option<Seq<char>> {
    if 0 <= pos < tokens.len() {
        match tokens[pos] {
            TokenView::Word(w) => Some(w),
            _ => None,
        }
    } else {
        None
    }
}

/// An implementation as the text gives it, field by field.
pub struct ImplView {
    pub name: Option<Seq<char>>,
    pub includes: Seq<Seq<char>>,
    pub exclude: Seq<Seq<char>>,
    pub test_include: Seq<Seq<char>>,
}

/// The fields of an implementation from `pos` on, up to the closing brace:
/// `name` with a word; `include`, `exclude` and `test_include` with a list of
/// words. A field that comes again replaces the earlier one. Any other key,
/// and any value of another shape, is an error.
pub open spec fn impl_fields_from(tokens: Seq<TokenView>, pos: int, acc: ImplView) -> Option<
    Read<ImplView>,
>
    decreases tokens.len() - pos,
{
    if pos < 0 || pos >= tokens.len() {
        None
    } else {
        match tokens[pos] {
            TokenView::RecordEnd => Some(Read { value: acc, next: pos + 1 }),
            TokenView::Word(key) => if key == "name"@ {
                match word_at(tokens, pos + 1) {
                    Some(name) => impl_fields_from(tokens, pos + 2, ImplView { name: Some(name), ..acc }),
                    None => None,
                }
            } else {
                match word_list_at(tokens, pos + 1) {
                    Some(list) => if key == "include"@ {
                        impl_fields_from(tokens, list.next, ImplView { includes: list.value, ..acc })
                    } else if key == "exclude"@ {
                        impl_fields_from(tokens, list.next, ImplView { exclude: list.value, ..acc })
                    } else if key == "test_include"@ {
                        impl_fields_from(
                            tokens,
                            list.next,
                            ImplView { test_include: list.value, ..acc },
                        )
                    } else {
                        None
                    },
                    None => None,
                }
            },
            _ => None,
        }
    }
}

/// The fields of an implementation before anything was read.
pub open spec fn no_impl_fields() -> ImplView {
    ImplView {
        name: None,
        includes: Seq::empty(),
        exclude: Seq::empty(),
        test_include: Seq::empty(),
    }
}

/// The implementation at `pos`: a record of its fields, of which the name
/// must be there.
pub open spec fn impl_at(tokens: Seq<TokenView>, pos: int) -> Option<Read<ImplView>> {
    if pos < 0 || pos >= tokens.len() || !(tokens[pos] is RecordStart) {
        None
    } else {
        match impl_fields_from(tokens, pos + 1, no_impl_fields()) {
            Some(read) => if read.value.name.is_some() {
                Some(read)
            } else {
                None
            },
            None => None,
        }
    }
}

/// What `impl_fields_from` reads ends behind its start, within the tokens.
pub proof fn lemma_impl_fields_bounds(tokens: Seq<TokenView>, pos: int, acc: ImplView)
    ensures
        impl_fields_from(tokens, pos, acc).is_some() ==> pos < impl_fields_from(
            tokens,
            pos,
            acc,
        ).unwrap().next <= tokens.len(),
    decreases tokens.len() - pos,
{
    if 0 <= pos < tokens.len() {
        match tokens[pos] {
            TokenView::Word(key) => {
                if key == "name"@ {
                    match word_at(tokens, pos + 1) {
                        Some(name) => {
                            lemma_impl_fields_bounds(
                                tokens,
                                pos + 2,
                                ImplView { name: Some(name), ..acc },
                            );
                        },
                        None => {},
                    }
                } else {
                    match word_list_at(tokens, pos + 1) {
                        Some(list) => {
                            lemma_impl_fields_bounds(
                                tokens,
                                list.next,
                                ImplView { includes: list.value, ..acc },
                            );
                            lemma_impl_fields_bounds(
                                tokens,
                                list.next,
                                ImplView { exclude: list.value, ..acc },
                            );
                            lemma_impl_fields_bounds(
                                tokens,
                                list.next,
                                ImplView { test_include: list.value, ..acc },
                            );
                        },
                        None => {},
                    }
                }
            },
            _ => {},
        }
    }
}

/// The implementations from `pos` on, up to the closing parenthesis.
pub open spec fn impls_from(tokens: Seq<TokenView>, pos: int, acc: Seq<ImplView>) -> Option<
    Read<Seq<ImplView>>,
>
    decreases tokens.len() - pos,
{
    if pos < 0 || pos >= tokens.len() {
        None
    } else if tokens[pos] is ListEnd {
        Some(Read { value: acc, next: pos + 1 })
    } else {
        match impl_at(tokens, pos) {
            Some(read) => {
                proof {
                    lemma_impl_fields_bounds(tokens, pos + 1, no_impl_fields());
                }
                impls_from(tokens, read.next, acc.push(read.value))
            },
            None => None,
        }
    }
}

/// What `impls_from` reads ends behind its start, within the tokens.
pub proof fn lemma_impls_bounds(tokens: Seq<TokenView>, pos: int, acc: Seq<ImplView>)
    ensures
        impls_from(tokens, pos, acc).is_some() ==> pos < impls_from(tokens, pos, acc).unwrap().next
            <= tokens.len(),
    decreases tokens.len() - pos,
{
    if 0 <= pos < tokens.len() && !(tokens[pos] is ListEnd) {
        match impl_at(tokens, pos) {
            Some(read) => {
                lemma_impl_fields_bounds(tokens, pos + 1, no_impl_fields());
                lemma_impls_bounds(tokens, read.next, acc.push(read.value));
            },
            None => {},
        }
    }
}

/// A spec as the text gives it, field by field.
pub struct SpecView {
    pub name: Option<Seq<char>>,
    pub prefix: Option<Seq<char>>,
    pub source_url: Option<Seq<char>>,
    pub includes: Seq<Seq<char>>,
    pub impls: Seq<ImplView>,
}

/// The fields of a spec from `pos` on, up to the closing brace: `name`,
/// `prefix` and `source_url` with a word; `include` with a list of words;
/// `impls` with a list of implementations.
pub open spec fn spec_fields_from(tokens: Seq<TokenView>, pos: int, acc: SpecView) -> Option<
    Read<SpecView>,
>
    decreases tokens.len() - pos,
{
    if pos < 0 || pos >= tokens.len() {
        None
    } else {
        match tokens[pos] {
            TokenView::RecordEnd => Some(Read { value: acc, next: pos + 1 }),
            TokenView::Word(key) => if key == "name"@ || key == "prefix"@ || key == "source_url"@ {
                match word_at(tokens, pos + 1) {
                    Some(word) => spec_fields_from(
                        tokens,
                        pos + 2,
                        if key == "name"@ {
                            SpecView { name: Some(word), ..acc }
                        } else if key == "prefix"@ {
                            SpecView { prefix: Some(word), ..acc }
                        } else {
                            SpecView { source_url: Some(word), ..acc }
                        },
                    ),
                    None => None,
                }
            } else if key == "include"@ {
                match word_list_at(tokens, pos + 1) {
                    Some(list) => spec_fields_from(
                        tokens,
                        list.next,
                        SpecView { includes: list.value, ..acc },
                    ),
                    None => None,
                }
            } else if key == "impls"@ {
                if pos + 1 >= tokens.len() || !(tokens[pos + 1] is ListStart) {
                    None
                } else {
                    match impls_from(tokens, pos + 2, Seq::empty()) {
                        Some(list) => {
                            proof {
                                lemma_impls_bounds(tokens, pos + 2, Seq::empty());
                            }
                            spec_fields_from(tokens, list.next, SpecView { impls: list.value, ..acc })
                        },
                        None => None,
                    }
                }
            } else {
                None
            },
            _ => None,
        }
    }
}

/// The spec at `pos`: a record of its fields, of which the name must be
/// there.
pub open spec fn spec_at(tokens: Seq<TokenView>, pos: int) -> Option<Read<SpecView>> {
    if pos < 0 || pos >= tokens.len() || !(tokens[pos] is RecordStart) {
        None
    } else {
        match spec_fields_from(tokens, pos + 1, no_spec_fields()) {
            Some(read) => if read.value.name.is_some() {
                Some(read)
            } else {
                None
            },
            None => None,
        }
    }
}

/// The fields of a spec before anything was read.
pub open spec fn no_spec_fields() -> SpecView {
    SpecView {
        name: None,
        prefix: None,
        source_url: None,
        includes: Seq::empty(),
        impls: Seq::empty(),
    }
}

/// What `spec_fields_from` reads ends behind its start, within the tokens.
pub proof fn lemma_spec_fields_bounds(tokens: Seq<TokenView>, pos: int, acc: SpecView)
    ensures
        spec_fields_from(tokens, pos, acc).is_some() ==> pos < spec_fields_from(
            tokens,
            pos,
            acc,
        ).unwrap().next <= tokens.len(),
    decreases tokens.len() - pos,
{
    if 0 <= pos < tokens.len() {
        match tokens[pos] {
            TokenView::Word(key) => {
                if key == "name"@ || key == "prefix"@ || key == "source_url"@ {
                    match word_at(tokens, pos + 1) {
                        Some(word) => {
                            lemma_spec_fields_bounds(
                                tokens,
                                pos + 2,
                                SpecView { name: Some(word), ..acc },
                            );
                            lemma_spec_fields_bounds(
                                tokens,
                                pos + 2,
                                SpecView { prefix: Some(word), ..acc },
                            );
                            lemma_spec_fields_bounds(
                                tokens,
                                pos + 2,
                                SpecView { source_url: Some(word), ..acc },
                            );
                        },
                        None => {},
                    }
                } else if key == "include"@ {
                    match word_list_at(tokens, pos + 1) {
                        Some(list) => {
                            lemma_spec_fields_bounds(
                                tokens,
                                list.next,
                                SpecView { includes: list.value, ..acc },
                            );
                        },
                        None => {},
                    }
                } else if key == "impls"@ {
                    if pos + 1 < tokens.len() && tokens[pos + 1] is ListStart {
                        lemma_impls_bounds(tokens, pos + 2, Seq::empty());
                        match impls_from(tokens, pos + 2, Seq::empty()) {
                            Some(list) => {
                                lemma_spec_fields_bounds(
                                    tokens,
                                    list.next,
                                    SpecView { impls: list.value, ..acc },
                                );
                            },
                            None => {},
                        }
                    }
                }
            },
            _ => {},
        }
    }
}

/// The specs from `pos` on, up to the closing parenthesis.
pub open spec fn specs_from(tokens: Seq<TokenView>, pos: int, acc: Seq<SpecView>) -> Option<
    Read<Seq<SpecView>>,
>
    decreases tokens.len() - pos,
{
    if pos < 0 || pos >= tokens.len() {
        None
    } else if tokens[pos] is ListEnd {
        Some(Read { value: acc, next: pos + 1 })
    } else {
        match spec_at(tokens, pos) {
            Some(read) => {
                proof {
                    lemma_spec_fields_bounds(tokens, pos + 1, no_spec_fields());
                }
                specs_from(tokens, read.next, acc.push(read.value))
            },
            None => None,
        }
    }
}

/// What `specs_from` reads ends behind its start, within the tokens.
pub proof fn lemma_specs_bounds(tokens: Seq<TokenView>, pos: int, acc: Seq<SpecView>)
    ensures
        specs_from(tokens, pos, acc).is_some() ==> pos < specs_from(tokens, pos, acc).unwrap().next
            <= tokens.len(),
    decreases tokens.len() - pos,
{
    if 0 <= pos < tokens.len() && !(tokens[pos] is ListEnd) {
        match spec_at(tokens, pos) {
            Some(read) => {
                lemma_spec_fields_bounds(tokens, pos + 1, no_spec_fields());
                lemma_specs_bounds(tokens, read.next, acc.push(read.value));
            },
            None => {},
        }
    }
}

/// The specs of a whole configuration: the key `specs` with a list of specs,
/// any number of times, the last of which counts; none for an empty text.
pub open spec fn document_from(tokens: Seq<TokenView>, pos: int, acc: Seq<SpecView>) -> Option<
    Seq<SpecView>,
>
    decreases tokens.len() - pos,
{
    if pos < 0 || pos > tokens.len() {
        None
    } else if pos == tokens.len() {
        Some(acc)
    } else if word_at(tokens, pos) == Some("specs"@) && pos + 1 < tokens.len() && tokens[pos + 1]
        is ListStart {
        match specs_from(tokens, pos + 2, Seq::empty()) {
            Some(list) => {
                proof {
                    lemma_specs_bounds(tokens, pos + 2, Seq::empty());
                }
                document_from(tokens, list.next, list.value)
            },
            None => None,
        }
    } else {
        None
    }
}

/// The view of an implementation.
pub open spec fn impl_view(i: Impl) -> ImplView {
    ImplView {
        name: Some(i.name@),
        includes: strs(i.includes@),
        exclude: strs(i.exclude@),
        test_include: strs(i.test_include@),
    }
}

/// The views of a list of implementations.
pub open spec fn impl_views(impls: Seq<Impl>) -> Seq<ImplView> {
    impls.map_values(|i: Impl| impl_view(i))
}

/// The view of a spec.
pub open spec fn spec_view(s: SpecConfig) -> SpecView {
    SpecView {
        name: Some(s.name@),
        prefix: crate::mcp::opt_string_view(s.prefix),
        source_url: crate::mcp::opt_string_view(s.source_url),
        includes: strs(s.includes@),
        impls: impl_views(s.impls@),
    }
}

/// The views of a list of specs.
pub open spec fn spec_views(specs: Seq<SpecConfig>) -> Seq<SpecView> {
    specs.map_values(|s: SpecConfig| spec_view(s))
}

fn is_list_start(tokens: &Vec<Token>, pos: usize) -> (yes: bool)
    ensures
        yes == (pos < tokens@.len() && token_views(tokens@)[pos as int] is ListStart),
{
    if pos >= tokens.len() {
        return false;
    }
    match &tokens[pos] {
        Token::ListStart => true,
        _ => false,
    }
}

fn is_list_end(tokens: &Vec<Token>, pos: usize) -> (yes: bool)
    ensures
        yes == (pos < tokens@.len() && token_views(tokens@)[pos as int] is ListEnd),
{
    if pos >= tokens.len() {
        return false;
    }
    match &tokens[pos] {
        Token::ListEnd => true,
        _ => false,
    }
}

fn is_record_start(tokens: &Vec<Token>, pos: usize) -> (yes: bool)
    ensures
        yes == (pos < tokens@.len() && token_views(tokens@)[pos as int] is RecordStart),
{
    if pos >= tokens.len() {
        return false;
    }
    match &tokens[pos] {
        Token::RecordStart => true,
        _ => false,
    }
}

fn is_word(tokens: &Vec<Token>, pos: usize) -> (yes: bool)
    ensures
        yes == (pos < tokens@.len() && token_views(tokens@)[pos as int] is Word),
{
    if pos >= tokens.len() {
        return false;
    }
    match &tokens[pos] {
        Token::Word(_) => true,
        _ => false,
    }
}

fn read_word(tokens: &Vec<Token>, pos: usize) -> (word: Option<String>)
    ensures
        crate::mcp::opt_string_view(word) == word_at(token_views(tokens@), pos as int),
{
    if pos >= tokens.len() {
        return None;
    }
    match &tokens[pos] {
        Token::Word(w) => Some(w.clone()),
        _ => None,
    }
}

fn read_word_list(tokens: &Vec<Token>, pos: usize) -> (read: Option<(Vec<String>, usize)>)
    ensures
        match read {
            Some((words, next)) => word_list_at(token_views(tokens@), pos as int) == Some(
                Read { value: strs(words@), next: next as int },
            ),
            None => word_list_at(token_views(tokens@), pos as int).is_none(),
        },
{
    let ghost tv = token_views(tokens@);
    let len = tokens.len();
    if !is_list_start(tokens, pos) {
        return None;
    }
    let mut words: Vec<String> = Vec::new();
    let mut end: usize = pos + 1;
    while end < len && is_word(tokens, end)
        invariant
            pos + 1 <= end <= tokens@.len(),
            len == tokens@.len(),
            tv == token_views(tokens@),
            pos + 1 + words_run(tv, pos + 1) == end + words_run(tv, end as int),
            words@.len() == end - (pos + 1),
            forall|k: int| 0 <= k < words@.len() ==> tv[pos + 1 + k] == TokenView::Word(words@[k]@),
        decreases tokens@.len() - end,
    {
        match &tokens[end] {
            Token::Word(w) => {
                words.push(w.clone());
            },
            _ => {},
        }
        end += 1;
    }
    if !is_list_end(tokens, end) {
        return None;
    }
    assert(strs(words@) == words_of(tv, pos + 1, end as int));
    Some((words, end + 1))
}

/// The fields of an implementation, as far as they were read.
struct ImplDraft {
    name: Option<String>,
    includes: Vec<String>,
    exclude: Vec<String>,
    test_include: Vec<String>,
}

impl ImplDraft {
    spec fn view(&self) -> ImplView {
        ImplView {
            name: crate::mcp::opt_string_view(self.name),
            includes: strs(self.includes@),
            exclude: strs(self.exclude@),
            test_include: strs(self.test_include@),
        }
    }
}

fn read_impl(tokens: &Vec<Token>, pos: usize) -> (read: Option<(Impl, usize)>)
    ensures
        match read {
            Some((item, next)) => impl_at(token_views(tokens@), pos as int) == Some(
                Read { value: impl_view(item), next: next as int },
            ),
            None => impl_at(token_views(tokens@), pos as int).is_none(),
        },
{
    let ghost tv = token_views(tokens@);
    let len = tokens.len();
    if !is_record_start(tokens, pos) {
        return None;
    }
    let mut draft = ImplDraft {
        name: None,
        includes: Vec::new(),
        exclude: Vec::new(),
        test_include: Vec::new(),
    };
    assert(draft.view().includes =~= Seq::<Seq<char>>::empty());
    assert(draft.view().exclude =~= Seq::<Seq<char>>::empty());
    assert(draft.view().test_include =~= Seq::<Seq<char>>::empty());
    assert(draft.view() == no_impl_fields());
    let mut at: usize = pos + 1;
    while at < tokens.len()
        invariant
            pos < at <= tokens@.len(),
            tv == token_views(tokens@),
            tv[pos as int] is RecordStart,
            impl_fields_from(tv, pos + 1, no_impl_fields()) == impl_fields_from(
                tv,
                at as int,
                draft.view(),
            ),
        decreases tokens@.len() - at,
    {
        match &tokens[at] {
            Token::RecordEnd => {
                let ghost view = draft.view();
                assert(tv[at as int] is RecordEnd);
                assert(impl_fields_from(tv, at as int, view) == Some(
                    Read { value: view, next: at + 1 },
                ));
                match draft.name {
                    Some(name) => {
                        let item = Impl {
                            name,
                            includes: draft.includes,
                            exclude: draft.exclude,
                            test_include: draft.test_include,
                        };
                        assert(impl_view(item) == view);
                        return Some((item, at + 1));
                    },
                    None => {
                        return None;
                    },
                }
            },
            Token::Word(key) => {
                if str_same(key.as_str(), "name") {
                    match read_word(tokens, at + 1) {
                        Some(name) => {
                            draft.name = Some(name);
                            at = at + 2;
                        },
                        None => {
                            return None;
                        },
                    }
                } else {
                    match read_word_list(tokens, at + 1) {
                        Some((words, next)) => {
                            if str_same(key.as_str(), "include") {
                                draft.includes = words;
                            } else if str_same(key.as_str(), "exclude") {
                                draft.exclude = words;
                            } else if str_same(key.as_str(), "test_include") {
                                draft.test_include = words;
                            } else {
                                return None;
                            }
                            at = next;
                        },
                        None => {
                            return None;
                        },
                    }
                }
            },
            _ => {
                return None;
            },
        }
    }
    None
}

fn read_impls(tokens: &Vec<Token>, pos: usize) -> (read: Option<(Vec<Impl>, usize)>)
    ensures
        match read {
            Some((items, next)) => impls_from(token_views(tokens@), pos as int, Seq::empty()) == Some(
                Read { value: impl_views(items@), next: next as int },
            ),
            None => impls_from(token_views(tokens@), pos as int, Seq::empty()).is_none(),
        },
{
    let ghost tv = token_views(tokens@);
    if pos > tokens.len() {
        return None;
    }
    let mut items: Vec<Impl> = Vec::new();
    let mut at: usize = pos;
    assert(impl_views(items@) == Seq::<ImplView>::empty());
    while at < tokens.len()
        invariant
            pos <= at <= tokens@.len(),
            tv == token_views(tokens@),
            impls_from(tv, pos as int, Seq::empty()) == impls_from(tv, at as int, impl_views(items@)),
        decreases tokens@.len() - at,
    {
        if is_list_end(tokens, at) {
            return Some((items, at + 1));
        }
        match read_impl(tokens, at) {
            Some((item, next)) => {
                proof {
                    lemma_impl_fields_bounds(tv, at + 1, no_impl_fields());
                }
                let ghost before = impl_views(items@);
                items.push(item);
                assert(impl_views(items@) == before.push(impl_view(item)));
                at = next;
            },
            None => {
                return None;
            },
        }
    }
    None
}

/// The fields of a spec, as far as they were read.
struct SpecDraft {
    name: Option<String>,
    prefix: Option<String>,
    source_url: Option<String>,
    includes: Vec<String>,
    impls: Vec<Impl>,
}

impl SpecDraft {
    spec fn view(&self) -> SpecView {
        SpecView {
            name: crate::mcp::opt_string_view(self.name),
            prefix: crate::mcp::opt_string_view(self.prefix),
            source_url: crate::mcp::opt_string_view(self.source_url),
            includes: strs(self.includes@),
            impls: impl_views(self.impls@),
        }
    }
}

fn read_spec(tokens: &Vec<Token>, pos: usize) -> (read: Option<(SpecConfig, usize)>)
    ensures
        match read {
            Some((item, next)) => spec_at(token_views(tokens@), pos as int) == Some(
                Read { value: spec_view(item), next: next as int },
            ),
            None => spec_at(token_views(tokens@), pos as int).is_none(),
        },
{
    let ghost tv = token_views(tokens@);
    let len = tokens.len();
    if !is_record_start(tokens, pos) {
        return None;
    }
    let mut draft = SpecDraft {
        name: None,
        prefix: None,
        source_url: None,
        includes: Vec::new(),
        impls: Vec::new(),
    };
    assert(draft.view().includes =~= Seq::<Seq<char>>::empty());
    assert(draft.view().impls =~= Seq::<ImplView>::empty());
    assert(draft.view() == no_spec_fields());
    let mut at: usize = pos + 1;
    while at < tokens.len()
        invariant
            pos < at <= tokens@.len(),
            tv == token_views(tokens@),
            tv[pos as int] is RecordStart,
            spec_fields_from(tv, pos + 1, no_spec_fields()) == spec_fields_from(
                tv,
                at as int,
                draft.view(),
            ),
        decreases tokens@.len() - at,
    {
        match &tokens[at] {
            Token::RecordEnd => {
                let ghost view = draft.view();
                assert(tv[at as int] is RecordEnd);
                assert(spec_fields_from(tv, at as int, view) == Some(
                    Read { value: view, next: at + 1 },
                ));
                match draft.name {
                    Some(name) => {
                        let item = SpecConfig {
                            name,
                            prefix: draft.prefix,
                            source_url: draft.source_url,
                            includes: draft.includes,
                            impls: draft.impls,
                        };
                        assert(spec_view(item) == view);
                        return Some((item, at + 1));
                    },
                    None => {
                        return None;
                    },
                }
            },
            Token::Word(key) => {
                let is_name = str_same(key.as_str(), "name");
                let is_prefix = str_same(key.as_str(), "prefix");
                let is_url = str_same(key.as_str(), "source_url");
                if is_name || is_prefix || is_url {
                    match read_word(tokens, at + 1) {
                        Some(word) => {
                            if is_name {
                                draft.name = Some(word);
                            } else if is_prefix {
                                draft.prefix = Some(word);
                            } else {
                                draft.source_url = Some(word);
                            }
                            at = at + 2;
                        },
                        None => {
                            return None;
                        },
                    }
                } else if str_same(key.as_str(), "include") {
                    match read_word_list(tokens, at + 1) {
                        Some((words, next)) => {
                            draft.includes = words;
                            at = next;
                        },
                        None => {
                            return None;
                        },
                    }
                } else if str_same(key.as_str(), "impls") {
                    if !is_list_start(tokens, at + 1) {
                        return None;
                    }
                    match read_impls(tokens, at + 2) {
                        Some((items, next)) => {
                            proof {
                                lemma_impls_bounds(tv, at + 2, Seq::empty());
                            }
                            draft.impls = items;
                            at = next;
                        },
                        None => {
                            return None;
                        },
                    }
                } else {
                    return None;
                }
            },
            _ => {
                return None;
            },
        }
    }
    None
}

fn read_specs(tokens: &Vec<Token>, pos: usize) -> (read: Option<(Vec<SpecConfig>, usize)>)
    ensures
        match read {
            Some((items, next)) => specs_from(token_views(tokens@), pos as int, Seq::empty()) == Some(
                Read { value: spec_views(items@), next: next as int },
            ),
            None => specs_from(token_views(tokens@), pos as int, Seq::empty()).is_none(),
        },
{
    let ghost tv = token_views(tokens@);
    if pos > tokens.len() {
        return None;
    }
    let mut items: Vec<SpecConfig> = Vec::new();
    let mut at: usize = pos;
    assert(spec_views(items@) == Seq::<SpecView>::empty());
    while at < tokens.len()
        invariant
            pos <= at <= tokens@.len(),
            tv == token_views(tokens@),
            specs_from(tv, pos as int, Seq::empty()) == specs_from(tv, at as int, spec_views(items@)),
        decreases tokens@.len() - at,
    {
        if is_list_end(tokens, at) {
            return Some((items, at + 1));
        }
        match read_spec(tokens, at) {
            Some((item, next)) => {
                proof {
                    lemma_spec_fields_bounds(tv, at + 1, no_spec_fields());
                }
                let ghost before = spec_views(items@);
                items.push(item);
                assert(spec_views(items@) == before.push(spec_view(item)));
                at = next;
            },
            None => {
                return None;
            },
        }
    }
    None
}

/// Reads a configuration from its tokens.
pub fn parse_tokens(tokens: &Vec<Token>) -> (config: Option<Config>)
    ensures
        match config {
            Some(c) => document_from(token_views(tokens@), 0, Seq::empty()) == Some(
                spec_views(c.specs@),
            ),
            None => document_from(token_views(tokens@), 0, Seq::empty()).is_none(),
        },
{
    let ghost tv = token_views(tokens@);
    let mut specs: Vec<SpecConfig> = Vec::new();
    let mut at: usize = 0;
    assert(spec_views(specs@) == Seq::<SpecView>::empty());
    while at < tokens.len()
        invariant
            at <= tokens@.len(),
            tv == token_views(tokens@),
            document_from(tv, 0, Seq::empty()) == document_from(tv, at as int, spec_views(specs@)),
        decreases tokens@.len() - at,
    {
        let is_specs = match &tokens[at] {
            Token::Word(key) => str_same(key.as_str(), "specs"),
            _ => false,
        };
        assert(is_specs == (word_at(tv, at as int) == Some("specs"@)));
        if !is_specs || !is_list_start(tokens, at + 1) {
            return None;
        }
        match read_specs(tokens, at + 2) {
            Some((items, next)) => {
                proof {
                    lemma_specs_bounds(tv, at + 2, Seq::empty());
                }
                specs = items;
                at = next;
            },
            None => {
                return None;
            },
        }
    }
    Some(Config { specs })
}

/// Reads a configuration from its text. A text that does not follow the
/// format gives nothing.
pub fn parse_config(text: &str) -> (config: Option<Config>)
    ensures
        match config {
            Some(c) => document_from(tokens_from(text@, 0), 0, Seq::empty()) == Some(
                spec_views(c.specs@),
            ),
            None => document_from(tokens_from(text@, 0), 0, Seq::empty()).is_none(),
        },
{
    let tokens = tokenize(text);
    parse_tokens(&tokens)
}

} // verus!
