use gpss_vm::lexer::{
    get_keyword_code, get_keyword_name, get_special_code, get_special_name, lexer, Keyword, Lexeme,
    LexerWarning, Special,
};

#[test]
fn keywords_have_names_and_codes() {
    let all = [
        (Keyword::Generate, "Generate"),
        (Keyword::Terminate, "Terminate"),
        (Keyword::Advance, "Advance"),
        (Keyword::Test, "Test"),
        (Keyword::Seize, "Seize"),
        (Keyword::Release, "Release"),
        (Keyword::Queue, "Queue"),
        (Keyword::Depart, "Depart"),
    ];
    for (code, name) in all {
        assert_eq!(get_keyword_name(code), name);
        assert_eq!(get_keyword_code(name), Some(code));
    }
    assert_eq!(get_keyword_code("generate"), None);
    assert_eq!(get_keyword_code("Generat"), None);
    assert_eq!(get_keyword_code("Generates"), None);
    assert_eq!(get_keyword_code(""), None);
}

#[test]
fn specials_have_names_and_codes() {
    let all = [
        (Special::Space, ' '),
        (Special::Tab, '\t'),
        (Special::Newline, '\n'),
        (Special::Semicolon, ';'),
        (Special::Endfile, '\0'),
        (Special::Div, '/'),
        (Special::Multiply, '*'),
        (Special::Plus, '+'),
        (Special::Minus, '-'),
    ];
    for (code, name) in all {
        assert_eq!(get_special_name(code), name);
        assert_eq!(get_special_code(name), Some(code));
    }
    assert_eq!(get_special_code('a'), None);
    assert_eq!(get_special_code(','), None);
    assert_eq!(get_special_code('\r'), None);
}

#[test]
fn lexer_splits_at_special_characters() {
    let lexed = lexer("Generate 5;\nAdvance x1\n");
    assert_eq!(
        lexed.lexemes,
        vec![
            Lexeme::Keyword(Keyword::Generate),
            Lexeme::Special(Special::Space),
            Lexeme::UserIdentity("5".to_string()),
            Lexeme::Special(Special::Semicolon),
            Lexeme::Special(Special::Newline),
            Lexeme::Keyword(Keyword::Advance),
            Lexeme::Special(Special::Space),
            Lexeme::UserIdentity("x1".to_string()),
            Lexeme::Special(Special::Newline),
        ]
    );
    assert_eq!(
        lexed.warnings,
        vec![
            LexerWarning { word: "5".to_string(), line: 1 },
            LexerWarning { word: "x1".to_string(), line: 3 },
        ]
    );
}

#[test]
fn lexer_drops_a_word_that_nothing_ends() {
    let lexed = lexer("Queue line");
    assert_eq!(lexed.lexemes, vec![Lexeme::Keyword(Keyword::Queue), Lexeme::Special(Special::Space)]);
    assert!(lexed.warnings.is_empty());
    let lexed = lexer("Terminate");
    assert!(lexed.lexemes.is_empty());
}

#[test]
fn lexer_of_nothing_gives_nothing() {
    let lexed = lexer("");
    assert!(lexed.lexemes.is_empty());
    assert!(lexed.warnings.is_empty());
}

#[test]
fn lexer_keeps_runs_of_specials() {
    let lexed = lexer(" \t\n;\0/*+-");
    let specials: Vec<Lexeme> = [
        Special::Space,
        Special::Tab,
        Special::Newline,
        Special::Semicolon,
        Special::Endfile,
        Special::Div,
        Special::Multiply,
        Special::Plus,
        Special::Minus,
    ]
    .into_iter()
    .map(Lexeme::Special)
    .collect();
    assert_eq!(lexed.lexemes, specials);
    assert!(lexed.warnings.is_empty());
}

#[test]
fn lexer_counts_lines_for_warnings() {
    let lexed = lexer("\n\nfoo bar\nSeize\nbaz;");
    let words: Vec<(String, u128)> = lexed.warnings.into_iter().map(|w| (w.word, w.line)).collect();
    assert_eq!(
        words,
        vec![("foo".to_string(), 3), ("bar".to_string(), 4), ("baz".to_string(), 5)]
    );
}

#[test]
fn lexer_reads_words_of_any_characters() {
    let lexed = lexer("Depart,Release входы\n");
    assert_eq!(
        lexed.lexemes,
        vec![
            Lexeme::UserIdentity("Depart,Release".to_string()),
            Lexeme::Special(Special::Space),
            Lexeme::UserIdentity("входы".to_string()),
            Lexeme::Special(Special::Newline),
        ]
    );
}
