//! The lexer of the simulation language: it splits a text at the special
//! characters and tells keywords from other words.

use vstd::prelude::*;
use crate::text::chars_of;

verus! {

/// The words that the language reserves.
#[derive(Copy, Clone, Debug, PartialEq, Eq, Structural)]
pub enum Keyword {
    Generate,
    Terminate,
    Advance,
    Test,
    Seize,
    Release,
    Queue,
    Depart,
}

/// The characters that end a word.
#[derive(Copy, Clone, Debug, PartialEq, Eq, Structural)]
pub enum Special {
    Space,
    Tab,
    Newline,
    Semicolon,
    Endfile,
    Div,
    Multiply,
    Plus,
    Minus,
}

/// A unit of the text.
#[derive(Debug, PartialEq, Eq)]
pub enum Lexeme {
    Keyword(Keyword),
    Special(Special),
    UserIdentity(String),
}

/// A lexeme, with the characters of a word in place of the string.
pub enum LexemeView {
    Keyword(Keyword),
    Special(Special),
    UserIdentity(Seq<char>),
}

impl View for Lexeme {
    type V = LexemeView;

    open spec fn view(&self) -> LexemeView {
        match self {
            Lexeme::Keyword(k) => LexemeView::Keyword(*k),
            Lexeme::Special(s) => LexemeView::Special(*s),
            Lexeme::UserIdentity(word) => LexemeView::UserIdentity(word@),
        }
    }
}

/// A word that is no keyword, and the line that the lexer had reached when
/// the word ended; lines are counted from 1.
#[derive(Debug, PartialEq, Eq)]
pub struct LexerWarning {
    pub word: String,
    pub line: u128,
}

/// What the lexer makes of a text.
#[derive(Debug, PartialEq, Eq)]
pub struct Lexed {
    pub lexemes: Vec<Lexeme>,
    pub warnings: Vec<LexerWarning>,
}

/// The name of a keyword.
pub open spec fn keyword_name(code: Keyword) -> Seq<char> {
    match code {
        Keyword::Generate => "Generate"@,
        Keyword::Terminate => "Terminate"@,
        Keyword::Advance => "Advance"@,
        Keyword::Test => "Test"@,
        Keyword::Seize => "Seize"@,
        Keyword::Release => "Release"@,
        Keyword::Queue => "Queue"@,
        Keyword::Depart => "Depart"@,
    }
}

/// The keyword that a word names, if it names one.
pub open spec fn keyword_code(name: Seq<char>) -> Option<Keyword> {
    if name == "Generate"@ {
        Some(Keyword::Generate)
    } else if name == "Terminate"@ {
        Some(Keyword::Terminate)
    } else if name == "Advance"@ {
        Some(Keyword::Advance)
    } else if name == "Test"@ {
        Some(Keyword::Test)
    } else if name == "Seize"@ {
        Some(Keyword::Seize)
    } else if name == "Release"@ {
        Some(Keyword::Release)
    } else if name == "Queue"@ {
        Some(Keyword::Queue)
    } else if name == "Depart"@ {
        Some(Keyword::Depart)
    } else {
        None
    }
}

/// The name of a keyword names that keyword.
pub proof fn lemma_keyword_names(code: Keyword)
    ensures
        keyword_code(keyword_name(code)) == Some(code),
{
    reveal_strlit("Generate");
    reveal_strlit("Terminate");
    reveal_strlit("Advance");
    reveal_strlit("Test");
    reveal_strlit("Seize");
    reveal_strlit("Release");
    reveal_strlit("Queue");
    reveal_strlit("Depart");
    assert("Generate"@.len() == 8 && "Terminate"@.len() == 9 && "Advance"@.len() == 7);
    assert("Test"@.len() == 4 && "Seize"@.len() == 5 && "Release"@.len() == 7);
    assert("Queue"@.len() == 5 && "Depart"@.len() == 6);
    assert("Advance"@[0] == 'A' && "Release"@[0] == 'R');
    assert("Seize"@[0] == 'S' && "Queue"@[0] == 'Q');
}

/// The character of a special symbol names that symbol.
pub proof fn lemma_special_names(code: Special)
    ensures
        special_code(special_name(code)) == Some(code),
{
}

/// The character of a special symbol.
pub open spec fn special_name(code: Special) -> char {
    match code {
        Special::Space => ' ',
        Special::Tab => '\t',
        Special::Newline => '\n',
        Special::Semicolon => ';',
        Special::Endfile => '\0',
        Special::Div => '/',
        Special::Multiply => '*',
        Special::Plus => '+',
        Special::Minus => '-',
    }
}

/// The special symbol that a character is, if it is one.
pub open spec fn special_code(name: char) -> Option<Special> {
    if name == ' ' {
        Some(Special::Space)
    } else if name == '\t' {
        Some(Special::Tab)
    } else if name == '\n' {
        Some(Special::Newline)
    } else if name == ';' {
        Some(Special::Semicolon)
    } else if name == '\0' {
        Some(Special::Endfile)
    } else if name == '/' {
        Some(Special::Div)
    } else if name == '*' {
        Some(Special::Multiply)
    } else if name == '+' {
        Some(Special::Plus)
    } else if name == '-' {
        Some(Special::Minus)
    } else {
        None
    }
}

/// The lexeme of a word.
pub open spec fn word_lexeme(word: Seq<char>) -> LexemeView {
    match keyword_code(word) {
        Some(code) => LexemeView::Keyword(code),
        None => LexemeView::UserIdentity(word),
    }
}

/// The lexer after a part of the text.
pub struct LexState {
    /// The lexemes so far.
    pub lexemes: Seq<LexemeView>,
    /// The words that are no keywords, each with the line at its end.
    pub warnings: Seq<(Seq<char>, nat)>,
    /// The word that has begun.
    pub word: Seq<char>,
    /// The line, counted from 1; a newline counts before the word that it ends.
    pub line: nat,
}

/// The lexer after the whole of `text`. A special character ends the word
/// before it and is a lexeme itself; a word that nothing ends is not a
/// lexeme.
pub open spec fn lex(text: Seq<char>) -> LexState
    decreases text.len(),
{
    if text.len() == 0 {
        LexState { lexemes: Seq::empty(), warnings: Seq::empty(), word: Seq::empty(), line: 1 }
    } else {
        let before = lex(text.drop_last());
        match special_code(text.last()) {
            None => LexState { word: before.word.push(text.last()), ..before },
            Some(code) => {
                let line = if code == Special::Newline {
                    before.line + 1
                } else {
                    before.line
                };
                if before.word.len() == 0 {
                    LexState {
                        lexemes: before.lexemes.push(LexemeView::Special(code)),
                        warnings: before.warnings,
                        word: Seq::empty(),
                        line,
                    }
                } else {
                    LexState {
                        lexemes: before.lexemes.push(word_lexeme(before.word)).push(
                            LexemeView::Special(code),
                        ),
                        warnings: if keyword_code(before.word).is_none() {
                            before.warnings.push((before.word, line))
                        } else {
                            before.warnings
                        },
                        word: Seq::empty(),
                        line,
                    }
                }
            },
        }
    }
}

/// The views of the lexemes of a vector.
pub open spec fn lexeme_views(lexemes: Seq<Lexeme>) -> Seq<LexemeView> {
    Seq::new(lexemes.len(), |i: int| lexemes[i]@)
}

/// The words and lines of the warnings of a vector.
pub open spec fn warning_views(warnings: Seq<LexerWarning>) -> Seq<(Seq<char>, nat)> {
    Seq::new(warnings.len(), |i: int| (warnings[i].word@, warnings[i].line as nat))
}

/// `String::push`: the character is appended to the string.
#[verifier::external_body]
fn push_char(text: &mut String, c: char)
    ensures
        final(text)@ == old(text)@.push(c),
{
    text.push(c)
}

fn string_of(chars: &Vec<char>) -> (text: String)
    ensures
        text@ == chars@,
{
    let mut text = String::new();
    let mut i: usize = 0;
    while i < chars.len()
        invariant
            i <= chars@.len(),
            text@ == chars@.take(i as int),
        decreases chars@.len() - i,
    {
        push_char(&mut text, chars[i]);
        i = i + 1;
        assert(text@ =~= chars@.take(i as int));
    }
    assert(chars@.take(chars@.len() as int) =~= chars@);
    text
}

fn same_text(word: &Vec<char>, literal: &str) -> (r: bool)
    ensures
        r == (word@ == literal@),
{
    let wanted = chars_of(literal);
    if wanted.len() != word.len() {
        return false;
    }
    let mut i: usize = 0;
    while i < wanted.len()
        invariant
            i <= wanted@.len(),
            wanted@.len() == word@.len(),
            wanted@ == literal@,
            forall|j: int| 0 <= j < i ==> wanted@[j] == word@[j],
        decreases wanted@.len() - i,
    {
        if wanted[i] != word[i] {
            return false;
        }
        i = i + 1;
    }
    assert(wanted@ =~= word@);
    true
}

/// The name of a keyword.
pub fn get_keyword_name(code: Keyword) -> (name: String)
    ensures
        name@ == keyword_name(code),
{
    match code {
        Keyword::Generate => String::from_str("Generate"),
        Keyword::Terminate => String::from_str("Terminate"),
        Keyword::Advance => String::from_str("Advance"),
        Keyword::Test => String::from_str("Test"),
        Keyword::Seize => String::from_str("Seize"),
        Keyword::Release => String::from_str("Release"),
        Keyword::Queue => String::from_str("Queue"),
        Keyword::Depart => String::from_str("Depart"),
    }
}

fn keyword_of(word: &Vec<char>) -> (code: Option<Keyword>)
    ensures
        code == keyword_code(word@),
{
    if same_text(word, "Generate") {
        Some(Keyword::Generate)
    } else if same_text(word, "Terminate") {
        Some(Keyword::Terminate)
    } else if same_text(word, "Advance") {
        Some(Keyword::Advance)
    } else if same_text(word, "Test") {
        Some(Keyword::Test)
    } else if same_text(word, "Seize") {
        Some(Keyword::Seize)
    } else if same_text(word, "Release") {
        Some(Keyword::Release)
    } else if same_text(word, "Queue") {
        Some(Keyword::Queue)
    } else if same_text(word, "Depart") {
        Some(Keyword::Depart)
    } else {
        None
    }
}

/// The keyword that a word names, if it names one.
pub fn get_keyword_code(name: &str) -> (code: Option<Keyword>)
    ensures
        code == keyword_code(name@),
{
    let word = chars_of(name);
    keyword_of(&word)
}

/// The character of a special symbol.
pub fn get_special_name(code: Special) -> (name: char)
    ensures
        name == special_name(code),
{
    match code {
        Special::Space => ' ',
        Special::Tab => '\t',
        Special::Newline => '\n',
        Special::Semicolon => ';',
        Special::Endfile => '\0',
        Special::Div => '/',
        Special::Multiply => '*',
        Special::Plus => '+',
        Special::Minus => '-',
    }
}

/// The special symbol that a character is, if it is one.
pub fn get_special_code(name: char) -> (code: Option<Special>)
    ensures
        code == special_code(name),
{
    if name == ' ' {
        Some(Special::Space)
    } else if name == '\t' {
        Some(Special::Tab)
    } else if name == '\n' {
        Some(Special::Newline)
    } else if name == ';' {
        Some(Special::Semicolon)
    } else if name == '\0' {
        Some(Special::Endfile)
    } else if name == '/' {
        Some(Special::Div)
    } else if name == '*' {
        Some(Special::Multiply)
    } else if name == '+' {
        Some(Special::Plus)
    } else if name == '-' {
        Some(Special::Minus)
    } else {
        None
    }
}

/// Splits a text into lexemes, and lists the words that are no keywords.
pub fn lexer(text: &str) -> (lexed: Lexed)
    ensures
        lexeme_views(lexed.lexemes@) == lex(text@).lexemes,
        warning_views(lexed.warnings@) == lex(text@).warnings,
{
    let buffer = chars_of(text);
    let mut ident: Vec<char> = Vec::new();
    let mut lexems: Vec<Lexeme> = Vec::new();
    let mut warnings: Vec<LexerWarning> = Vec::new();
    let mut line_number: u128 = 1;
    let mut i: usize = 0;
    assert(buffer@.take(0) =~= Seq::<char>::empty());
    assert(lexeme_views(lexems@) =~= lex(buffer@.take(0)).lexemes);
    assert(warning_views(warnings@) =~= lex(buffer@.take(0)).warnings);
    while i < buffer.len()
        invariant
            i <= buffer@.len(),
            buffer@ == text@,
            lexeme_views(lexems@) == lex(buffer@.take(i as int)).lexemes,
            warning_views(warnings@) == lex(buffer@.take(i as int)).warnings,
            ident@ == lex(buffer@.take(i as int)).word,
            line_number == lex(buffer@.take(i as int)).line,
            line_number <= i + 1,
        decreases buffer@.len() - i,
    {
        let c: char = buffer[i];
        let ghost before = lex(buffer@.take(i as int));
        let ghost views = lexeme_views(lexems@);
        let ghost warned = warning_views(warnings@);
        proof {
            assert(buffer@.take(i + 1).drop_last() =~= buffer@.take(i as int));
            assert(buffer@.take(i + 1).last() == c);
        }
        match get_special_code(c) {
            Some(special_code) => {
                match special_code {
                    Special::Newline => {
                        line_number = line_number + 1;
                    },
                    _ => {},
                }
                if ident.len() != 0 {
                    match keyword_of(&ident) {
                        Some(code) => {
                            lexems.push(Lexeme::Keyword(code));
                        },
                        None => {
                            warnings.push(
                                LexerWarning { word: string_of(&ident), line: line_number },
                            );
                            lexems.push(Lexeme::UserIdentity(string_of(&ident)));
                            assert(warning_views(warnings@) =~= warned.push(
                                (ident@, line_number as nat),
                            ));
                        },
                    }
                    assert(lexeme_views(lexems@) =~= views.push(word_lexeme(ident@)));
                    ident = Vec::new();
                }
                let ghost views = lexeme_views(lexems@);
                lexems.push(Lexeme::Special(special_code));
                assert(lexeme_views(lexems@) =~= views.push(LexemeView::Special(special_code)));
            },
            None => {
                ident.push(c);
            },
        }
        i = i + 1;
    }
    assert(buffer@.take(buffer@.len() as int) =~= buffer@);
    Lexed { lexemes: lexems, warnings }
}

} // verus!
