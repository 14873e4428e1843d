use liveseq::lex::{ExpectErr, Lexer, Token};

#[test]
fn test_lexer() {
    let input = "sym [ ] doookz > #";
    let mut mylex = Lexer::new(input);

    assert_eq!(mylex.span(), 0..0);
    assert_eq!(mylex.slice(), b"");
    assert_eq!(mylex.lookahead(), Token::Sym);
    mylex.advance();

    assert_eq!(mylex.span(), 0..3);
    assert_eq!(mylex.slice(), b"sym");
    assert_eq!(mylex.lookahead(), Token::OpenSq);
    mylex.advance();

    assert_eq!(mylex.span(), 4..5);
    assert_eq!(mylex.slice(), b"[");
    assert_eq!(mylex.lookahead(), Token::CloseSq);
    mylex.advance();

    assert_eq!(mylex.span(), 6..7);
    assert_eq!(mylex.slice(), b"]");
    assert_eq!(mylex.lookahead(), Token::Sym);
    mylex.advance();

    assert_eq!(mylex.span(), 8..14);
    assert_eq!(mylex.slice(), b"doookz");
    assert_eq!(mylex.lookahead(), Token::CloseAng);
    mylex.advance();

    assert_eq!(mylex.span(), 15..16);
    assert_eq!(mylex.slice(), b">");
    assert_eq!(mylex.lookahead(), Token::Error);
    mylex.advance();

    assert_eq!(mylex.span(), 17..18);
    assert_eq!(mylex.slice(), b"#");
    assert_eq!(mylex.lookahead(), Token::Eof);
    mylex.advance();

    //assert the lookahead works correctly
    let mut lx = Lexer::new(input);
    assert_eq!(lx.lookahead(), lx.next());
    assert_eq!(lx.lookahead(), lx.next());
    assert_eq!(lx.lookahead(), lx.next());
    assert_eq!(lx.lookahead(), lx.next());
    assert_eq!(lx.lookahead(), lx.next());
    assert_eq!(lx.lookahead(), lx.next());
}

#[test]
fn test_tokens() {
    let input = "BpM";
    let mut lxr = Lexer::new(input);
    assert!(matches!(lxr.next(), Token::Bpm));

    let input = "/fish/wish";
    let mut lxr = Lexer::new(input);
    let nxt = lxr.next();
    assert!(matches!(nxt, Token::Error));
    assert_eq!(lxr.slice(), b"/");
    assert_eq!(lxr.next(), Token::Sym);
    assert_eq!(lxr.slice(), b"fish");
}

fn tokens(src: &str) -> Vec<(Token, String)> {
    let mut lx = Lexer::new(src);
    let mut out = vec![];
    loop {
        let t = lx.next();
        if t == Token::Eof {
            return out;
        }
        out.push((t, String::from_utf8_lossy(lx.slice()).into_owned()));
    }
}

fn kinds(src: &str) -> Vec<Token> {
    tokens(src).into_iter().map(|(t, _)| t).collect()
}

#[test]
fn every_keyword_in_any_case() {
    assert_eq!(
        kinds("bpm div sync play stop list_outs open_output set_output find_lps open_lp do_file"),
        vec![
            Token::Bpm,
            Token::Div,
            Token::Sync,
            Token::Play,
            Token::Stop,
            Token::ListOuts,
            Token::OpenOut,
            Token::SetOut,
            Token::FindLps,
            Token::OpenLp,
            Token::DoFile
        ]
    );
    assert_eq!(
        kinds("BPM Div sYNC PLAY Stop LIST_OUTS Open_Output SET_output Find_LPS OPEN_lp Do_File"),
        vec![
            Token::Bpm,
            Token::Div,
            Token::Sync,
            Token::Play,
            Token::Stop,
            Token::ListOuts,
            Token::OpenOut,
            Token::SetOut,
            Token::FindLps,
            Token::OpenLp,
            Token::DoFile
        ]
    );
}

#[test]
fn a_longer_name_is_no_keyword() {
    assert_eq!(kinds("bpmx xbpm play2 stop_ syncs"), vec![Token::Sym; 5]);
}

#[test]
fn punctuation_and_line_ends() {
    assert_eq!(
        kinds("()[]{}<>=-\n"),
        vec![
            Token::OpenParen,
            Token::CloseParen,
            Token::OpenSq,
            Token::CloseSq,
            Token::OpenCrl,
            Token::CloseCrl,
            Token::OpenAng,
            Token::CloseAng,
            Token::Eq,
            Token::Dash,
            Token::Eol
        ]
    );
}

#[test]
fn blanks_are_space_tab_and_form_feed() {
    assert_eq!(kinds(" \t\x0c a \t b\x0c"), vec![Token::Sym, Token::Sym]);
    assert_eq!(kinds("a\rb"), vec![Token::Sym, Token::Error, Token::Sym]);
}

#[test]
fn digits_beat_symbols_and_symbols_take_the_longest_name() {
    assert_eq!(
        tokens("120 12ab ab12 0 _x 007"),
        vec![
            (Token::Digits, "120".to_string()),
            (Token::Sym, "12ab".to_string()),
            (Token::Sym, "ab12".to_string()),
            (Token::Digits, "0".to_string()),
            (Token::Sym, "_x".to_string()),
            (Token::Digits, "007".to_string()),
        ]
    );
}

#[test]
fn pitch_names() {
    assert_eq!(
        tokens("C#4 c_0 Gb8 ab3 A#9 C#4x Cb44 H_3 C# D_"),
        vec![
            (Token::Note, "C#4".to_string()),
            (Token::Note, "c_0".to_string()),
            (Token::Note, "Gb8".to_string()),
            (Token::Note, "ab3".to_string()),
            (Token::Sym, "A".to_string()),
            (Token::Error, "#".to_string()),
            (Token::Digits, "9".to_string()),
            (Token::Note, "C#4".to_string()),
            (Token::Sym, "x".to_string()),
            (Token::Sym, "Cb44".to_string()),
            (Token::Sym, "H_3".to_string()),
            (Token::Sym, "C".to_string()),
            (Token::Error, "#".to_string()),
            (Token::Sym, "D_".to_string()),
        ]
    );
}

#[test]
fn an_error_token_is_one_whole_character() {
    let src = "a \u{e9}\u{2192}\u{1f600}! b";
    let mut lx = Lexer::new(src);
    assert_eq!(lx.next(), Token::Sym);
    assert_eq!(lx.next(), Token::Error);
    assert_eq!(lx.span(), 2..4);
    assert_eq!(lx.next(), Token::Error);
    assert_eq!(lx.span(), 4..7);
    assert_eq!(lx.next(), Token::Error);
    assert_eq!(lx.span(), 7..11);
    assert_eq!(lx.next(), Token::Error);
    assert_eq!(lx.span(), 11..12);
    assert_eq!(lx.next(), Token::Sym);
    assert_eq!(lx.span(), 13..14);
    assert_eq!(lx.next(), Token::Eof);
}

#[test]
fn the_end_of_the_input_stays_the_end() {
    let mut lx = Lexer::new("x  ");
    assert_eq!(lx.next(), Token::Sym);
    assert_eq!(lx.lookahead(), Token::Eof);
    assert_eq!(lx.next(), Token::Eof);
    assert_eq!(lx.span(), 3..3);
    assert_eq!(lx.next(), Token::Eof);
    assert_eq!(lx.span_start(), 3);
    assert_eq!(lx.span_end(), 3);
    assert_eq!(lx.src(), b"x  ");
    let empty = Lexer::new("");
    assert_eq!(empty.lookahead(), Token::Eof);
    assert_eq!(empty.done(), (&b""[..], 0, 0));
}

#[test]
fn expect_says_what_it_found() {
    let mut lx = Lexer::new("[ x # ");
    assert!(matches!(lx.expect(Token::OpenSq), Ok(())));
    assert!(matches!(lx.expect(Token::OpenSq), Err(ExpectErr::WrongToken(Token::Sym))));
    assert!(matches!(lx.expect(Token::OpenSq), Err(ExpectErr::LexErr)));
    assert!(matches!(lx.expect(Token::OpenSq), Err(ExpectErr::Eof)));
    assert!(matches!(lx.expect(Token::Eof), Ok(())));
}

#[test]
fn skip_run_counts_the_tokens_it_takes() {
    let mut lx = Lexer::new("- -- - x -");
    assert_eq!(lx.skip_run(Token::Dash), 4);
    assert_eq!(lx.lookahead(), Token::Sym);
    assert_eq!(lx.skip_run(Token::Dash), 0);
    assert_eq!(lx.skip_run(Token::Eof), 0);
}

#[test]
fn token_parse_hands_the_lexer_on() {
    let lx = Lexer::new("( 1");
    let ((t, span), rest) = Token::OpenParen.parse(lx).ok().expect("the bracket is there");
    assert_eq!(t, Token::OpenParen);
    assert_eq!(span, 0..1);
    let back = Token::OpenParen.parse(rest).err().expect("a number is no bracket");
    assert_eq!(back.slice(), b"1");
}
