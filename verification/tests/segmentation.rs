use harper_core::{
    FatToken, Punctuation, Span, Token, TokenClass, TokenKind, TokenStringExt, WordMetadata,
};

fn plain_word() -> TokenKind {
    TokenKind::Word(WordMetadata { linking_verb: false, conjunction: false, likely_homograph: false })
}

fn linking_verb() -> TokenKind {
    TokenKind::Word(WordMetadata { linking_verb: true, conjunction: false, likely_homograph: false })
}

fn mark(c: char) -> Option<Punctuation> {
    match c {
        '.' => Some(Punctuation::Period),
        '!' => Some(Punctuation::Bang),
        '?' => Some(Punctuation::Question),
        ',' => Some(Punctuation::Comma),
        ':' => Some(Punctuation::Colon),
        ';' => Some(Punctuation::Semicolon),
        '"' => Some(Punctuation::Quote),
        '\'' => Some(Punctuation::Apostrophe),
        '|' => Some(Punctuation::Pipe),
        '@' => Some(Punctuation::At),
        '$' => Some(Punctuation::Currency),
        _ => None,
    }
}

/// Cuts plain text into words, runs of spaces, numbers, paragraph breaks
/// (a blank line), line breaks, inline code between backticks, and marks.
fn lex(text: &str) -> (Vec<char>, Vec<Token>) {
    let chars: Vec<char> = text.chars().collect();
    let mut tokens = Vec::new();
    let mut i = 0;
    while i < chars.len() {
        let start = i;
        let c = chars[i];
        let kind = if c.is_alphabetic() {
            while i < chars.len() && chars[i].is_alphabetic() {
                i += 1;
            }
            let word: String = chars[start..i].iter().collect();
            if word == "is" || word == "are" || word == "were" {
                linking_verb()
            } else {
                plain_word()
            }
        } else if c.is_ascii_digit() {
            while i < chars.len() && chars[i].is_ascii_digit() {
                i += 1;
            }
            TokenKind::Number
        } else if c == ' ' {
            while i < chars.len() && chars[i] == ' ' {
                i += 1;
            }
            TokenKind::Space(i - start)
        } else if c == '\n' {
            while i < chars.len() && chars[i] == '\n' {
                i += 1;
            }
            if i - start >= 2 {
                TokenKind::ParagraphBreak
            } else {
                TokenKind::Newline(1)
            }
        } else if c == '`' {
            i += 1;
            while i < chars.len() && chars[i] != '`' {
                i += 1;
            }
            if i < chars.len() {
                i += 1;
            }
            TokenKind::Unlintable
        } else {
            i += 1;
            TokenKind::Punctuation(mark(c).unwrap_or(Punctuation::Other))
        };
        tokens.push(Token::new(Span::new(start, i), kind));
    }
    (chars, tokens)
}

fn texts(units: &[&[Token]], chars: &[char]) -> Vec<String> {
    let mut out = Vec::new();
    for unit in units {
        if let Some(span) = unit.span() {
            out.push(span.get_content_string(chars));
        }
    }
    out
}

fn joined(units: &[&[Token]]) -> Vec<Token> {
    let mut out = Vec::new();
    for unit in units {
        out.extend_from_slice(unit);
    }
    out
}

#[test]
fn parses_sentences_correctly() {
    let text = "There were three little pigs. They built three little homes.";
    let chars: Vec<char> = text.chars().collect();
    let (_, toks) = lex(text);

    let mut sentence_strs = vec![];

    for sentence in toks.iter_sentences() {
        if let Some(span) = sentence.span() {
            sentence_strs.push(span.get_content_string(&chars));
        }
    }

    assert_eq!(
        sentence_strs,
        vec![
            "There were three little pigs.",
            " They built three little homes."
        ]
    )
}

#[test]
fn sentences_are_exactly_two_units() {
    let (_, toks) = lex("There were three little pigs. They built three little homes.");
    let sentences = toks.iter_sentences();
    assert_eq!(sentences.len(), 2);
    assert_eq!(sentences[0], &toks[0..10]);
    assert_eq!(sentences[1], &toks[10..]);
    assert_eq!(sentences[1][0].kind, TokenKind::Space(1));
}

#[test]
fn first_sentence_word_after_unlintable_is_none() {
    let (_, toks) = lex("`code` word");
    assert_eq!(toks[0].kind, TokenKind::Unlintable);
    assert_eq!(toks.first_sentence_word(), None);
}

#[test]
fn first_sentence_word_at_front() {
    let (_, toks) = lex("word `code`");
    assert_eq!(toks.first_sentence_word(), Some(toks[0]));
}

#[test]
fn first_sentence_word_behind_other_tokens() {
    let (_, toks) = lex("  12 word is");
    assert_eq!(toks.first_sentence_word(), Some(toks[3]));
    assert_eq!(toks[3].span, Span::new(5, 9));
}

#[test]
fn first_sentence_word_without_words() {
    let (_, toks) = lex("12 34.");
    assert_eq!(toks.first_sentence_word(), None);
    let (_, toks) = lex("`code`");
    assert_eq!(toks.first_sentence_word(), None);
}

#[test]
fn no_chunk_terminator_gives_one_chunk() {
    let (_, toks) = lex("three little pigs");
    let chunks = toks.iter_chunks();
    assert_eq!(chunks.len(), 1);
    assert_eq!(chunks[0], &toks[..]);
}

#[test]
fn no_terminator_gives_one_unit_of_each_sort() {
    let (_, toks) = lex("three little pigs");
    assert_eq!(toks.iter_sentences(), vec![&toks[..]]);
    assert_eq!(toks.iter_paragraphs(), vec![&toks[..]]);
    assert_eq!(toks.iter_units(TokenClass::Pipe), vec![&toks[..]]);
}

#[test]
fn chunks_split_behind_commas() {
    let (chars, toks) = lex("Here is an example, it is short.");
    let chunks = toks.iter_chunks();
    assert_eq!(texts(&chunks, &chars), vec!["Here is an example,", " it is short."]);
}

#[test]
fn empty_input_has_no_units() {
    let toks: Vec<Token> = Vec::new();
    assert_eq!(toks.iter_chunks().len(), 0);
    assert_eq!(toks.iter_sentences().len(), 0);
    assert_eq!(toks.iter_paragraphs().len(), 0);
    assert_eq!(toks.iter_units(TokenClass::Word).len(), 0);
}

#[test]
fn empty_input_answers_nothing() {
    let toks: Vec<Token> = Vec::new();
    assert_eq!(toks.first_of(TokenClass::Word), None);
    assert_eq!(toks.last_of(TokenClass::Word), None);
    assert_eq!(toks.last_index_of(TokenClass::Word), None);
    assert_eq!(toks.iter_indices_of(TokenClass::Word), Vec::<usize>::new());
    assert_eq!(toks.iter_of(TokenClass::Word), Vec::<Token>::new());
    assert_eq!(toks.first_non_whitespace(), None);
    assert_eq!(toks.first_sentence_word(), None);
    assert_eq!(toks.span(), None);
    assert_eq!(toks.iter_linking_verb_indices(), Vec::<usize>::new());
    assert_eq!(toks.iter_linking_verbs(), Vec::<Token>::new());
}

#[test]
fn terminator_at_the_end_leaves_no_empty_unit() {
    let (_, toks) = lex("One. Two.");
    let sentences = toks.iter_sentences();
    assert_eq!(sentences.len(), 2);
    assert_eq!(sentences[0], &toks[0..2]);
    assert_eq!(sentences[1], &toks[2..5]);
}

#[test]
fn text_behind_the_last_terminator_is_a_unit() {
    let (chars, toks) = lex("One. Two! Three");
    let sentences = toks.iter_sentences();
    assert_eq!(texts(&sentences, &chars), vec!["One.", " Two!", " Three"]);
    assert_eq!(sentences[2], &toks[5..7]);
}

#[test]
fn adjacent_terminators_give_a_unit_of_one() {
    let (_, toks) = lex("Who?! Me");
    let sentences = toks.iter_sentences();
    assert_eq!(sentences.len(), 3);
    assert_eq!(sentences[0], &toks[0..2]);
    assert_eq!(sentences[1], &toks[2..3]);
    assert_eq!(sentences[1][0].kind, TokenKind::Punctuation(Punctuation::Bang));
    assert_eq!(sentences[2], &toks[3..5]);
}

#[test]
fn only_a_terminator() {
    let (_, toks) = lex(".");
    assert_eq!(toks.iter_sentences(), vec![&toks[..]]);
}

#[test]
fn paragraphs_split_behind_blank_lines() {
    let (chars, toks) = lex("One. Two.\n\nThree\nfour.\n\n");
    let paragraphs = toks.iter_paragraphs();
    assert_eq!(paragraphs.len(), 2);
    assert_eq!(texts(&paragraphs, &chars), vec!["One. Two.\n\n", "Three\nfour.\n\n"]);
    let inner = paragraphs[0].iter_sentences();
    assert_eq!(texts(&inner, &chars), vec!["One.", " Two.", ""]);
}

#[test]
fn units_join_to_the_input() {
    for text in ["", ".", "..", "a", "a.", ".a", "One, two. Three: four\n\nfive?! six", "a, b, c"] {
        let (_, toks) = lex(text);
        assert_eq!(joined(&toks.iter_chunks()), toks);
        assert_eq!(joined(&toks.iter_sentences()), toks);
        assert_eq!(joined(&toks.iter_paragraphs()), toks);
        assert_eq!(joined(&toks.iter_units(TokenClass::Word)), toks);
    }
}

#[test]
fn units_are_not_empty_and_end_with_their_terminator() {
    let (_, toks) = lex("One, two. Three: four\n\nfive?! six");
    let chunks = toks.iter_chunks();
    let terminators = toks.iter_indices_of(TokenClass::ChunkTerminator);
    assert_eq!(terminators, vec![1, 4, 7, 10, 12, 13]);
    assert_eq!(chunks.len(), terminators.len() + 1);
    let mut start = 0;
    for (k, chunk) in chunks.iter().enumerate() {
        assert!(!chunk.is_empty());
        assert_eq!(*chunk, &toks[start..start + chunk.len()]);
        start += chunk.len();
        for (offset, token) in chunk.iter().enumerate() {
            if token.kind.is_chunk_terminator() {
                assert_eq!(offset, chunk.len() - 1);
                assert_eq!(start - 1, terminators[k]);
            }
        }
    }
    assert_eq!(start, toks.len());
    assert!(!chunks[6][0].kind.is_chunk_terminator());
}

#[test]
fn indices_and_tokens_agree() {
    let (_, toks) = lex("One, two. 3 is: four\n\nfive?! six @ $ | ' \"");
    let classes = [
        TokenClass::Word,
        TokenClass::WordLike,
        TokenClass::Conjunction,
        TokenClass::Space,
        TokenClass::Apostrophe,
        TokenClass::Pipe,
        TokenClass::Quote,
        TokenClass::Number,
        TokenClass::At,
        TokenClass::Ellipsis,
        TokenClass::Unlintable,
        TokenClass::SentenceTerminator,
        TokenClass::ParagraphBreak,
        TokenClass::ChunkTerminator,
        TokenClass::Punctuation,
        TokenClass::Currency,
        TokenClass::LikelyHomograph,
    ];
    for class in classes {
        let indices = toks.iter_indices_of(class);
        let by_index: Vec<Token> = indices.iter().map(|i| toks[*i]).collect();
        assert_eq!(by_index, toks.iter_of(class));
        let expected: Vec<usize> = (0..toks.len()).filter(|i| toks[*i].kind.is(class)).collect();
        assert_eq!(indices, expected);
        assert_eq!(toks.first_of(class), expected.first().map(|i| toks[*i]));
        assert_eq!(toks.last_of(class), expected.last().map(|i| toks[*i]));
        assert_eq!(toks.last_index_of(class), expected.last().copied());
    }
}

#[test]
fn word_queries() {
    let (_, toks) = lex("12 one two. three!");
    assert_eq!(toks.iter_indices_of(TokenClass::Word), vec![2, 4, 7]);
    assert_eq!(toks.iter_indices_of(TokenClass::WordLike), vec![0, 2, 4, 7]);
    assert_eq!(toks.first_of(TokenClass::Word), Some(toks[2]));
    assert_eq!(toks.last_of(TokenClass::Word), Some(toks[7]));
    assert_eq!(toks.last_index_of(TokenClass::Word), Some(7));
    assert_eq!(toks.last_index_of(TokenClass::Number), Some(0));
    assert_eq!(toks.last_index_of(TokenClass::SentenceTerminator), Some(8));
    assert_eq!(toks.last_index_of(TokenClass::Pipe), None);
    assert_eq!(toks.first_of(TokenClass::Pipe), None);
    assert_eq!(toks.last_of(TokenClass::Pipe), None);
}

#[test]
fn first_non_whitespace_skips_spaces_and_line_breaks() {
    let (_, toks) = lex("  \n word");
    assert_eq!(toks.first_non_whitespace(), Some(toks[3]));
    let (_, toks) = lex("word ");
    assert_eq!(toks.first_non_whitespace(), Some(toks[0]));
    let (_, toks) = lex("   \n ");
    assert_eq!(toks.first_non_whitespace(), None);
}

#[test]
fn linking_verbs_are_found() {
    let (_, toks) = lex("There were pigs. It is so, they are.");
    assert_eq!(toks.iter_indices_of(TokenClass::Word).len(), 8);
    assert_eq!(toks.iter_linking_verb_indices(), vec![2, 9, 16]);
    assert_eq!(toks.iter_linking_verbs(), vec![toks[2], toks[9], toks[16]]);
    let (_, toks) = lex("Three little pigs.");
    assert_eq!(toks.iter_linking_verb_indices(), Vec::<usize>::new());
}

#[test]
fn span_of_nothing_is_none() {
    let toks: Vec<Token> = Vec::new();
    assert_eq!(toks.span(), None);
}

#[test]
fn span_of_one_token_is_empty_at_its_start() {
    let toks = vec![Token::new(Span::new(3, 8), plain_word())];
    assert_eq!(toks.span(), Some(Span::new(3, 3)));
}

#[test]
fn span_of_several_tokens_bounds_them() {
    let (_, toks) = lex("one two three");
    assert_eq!(toks.span(), Some(Span::new(0, 13)));
    assert_eq!(toks[2..].span(), Some(Span::new(4, 13)));
    assert_eq!(toks[1..4].span(), Some(Span::new(3, 8)));
    let shuffled = vec![toks[4], toks[0], toks[2]];
    assert_eq!(shuffled.span(), Some(Span::new(0, 13)));
}

#[test]
fn span_content() {
    let chars: Vec<char> = "three little pigs".chars().collect();
    let span = Span::new(6, 12);
    assert_eq!(span.get_content(&chars), &['l', 'i', 't', 't', 'l', 'e']);
    assert_eq!(span.get_content_string(&chars), "little");
    assert_eq!(Span::new(0, 17).get_content_string(&chars), "three little pigs");
    assert_eq!(Span::new(17, 17).get_content_string(&chars), "");
    assert_eq!(Span::default(), Span::new(0, 0));
}

#[test]
fn token_to_fat_copies_its_characters() {
    let chars: Vec<char> = "three little pigs".chars().collect();
    let token = Token::new(Span::new(13, 17), plain_word());
    assert_eq!(token.span, Span::new(13, 17));
    assert_eq!(token.kind, plain_word());
    let fat = token.to_fat(&chars);
    assert_eq!(fat, FatToken { content: vec!['p', 'i', 'g', 's'], kind: plain_word() });
    let empty = Token::new(Span::new(5, 5), TokenKind::Unlintable).to_fat(&chars);
    assert_eq!(empty.content, Vec::<char>::new());
    assert_eq!(empty.kind, TokenKind::Unlintable);
    assert_eq!(Token::default(), Token::new(Span::new(0, 0), TokenKind::Unlintable));
}

#[test]
fn kinds_and_their_classes() {
    let period = TokenKind::Punctuation(Punctuation::Period);
    let comma = TokenKind::Punctuation(Punctuation::Comma);
    assert!(period.is_sentence_terminator() && period.is_chunk_terminator());
    assert!(!comma.is_sentence_terminator() && comma.is_chunk_terminator());
    assert!(TokenKind::ParagraphBreak.is_sentence_terminator());
    assert!(TokenKind::ParagraphBreak.is_chunk_terminator());
    assert!(TokenKind::ParagraphBreak.is_paragraph_break());
    assert!(!period.is_paragraph_break());
    assert!(TokenKind::Punctuation(Punctuation::Quote).is_quote());
    assert!(TokenKind::Punctuation(Punctuation::Quote).is_chunk_terminator());
    assert!(TokenKind::Punctuation(Punctuation::Colon).is_chunk_terminator());
    assert!(!TokenKind::Punctuation(Punctuation::Semicolon).is_chunk_terminator());
    assert!(TokenKind::Punctuation(Punctuation::Apostrophe).is_apostrophe());
    assert!(TokenKind::Punctuation(Punctuation::Pipe).is_pipe());
    assert!(TokenKind::Punctuation(Punctuation::At).is_at());
    assert!(TokenKind::Punctuation(Punctuation::Ellipsis).is_ellipsis());
    assert!(TokenKind::Punctuation(Punctuation::Currency).is_currency());
    assert!(period.is_punctuation() && !period.is_word());
    assert!(TokenKind::Number.is_number() && TokenKind::Number.is_word_like());
    assert!(!TokenKind::Number.is_word());
    assert!(TokenKind::Space(2).is_space() && TokenKind::Space(2).is_whitespace());
    assert!(!TokenKind::Newline(1).is_space() && TokenKind::Newline(1).is_whitespace());
    assert!(TokenKind::Unlintable.is_unlintable());
    assert!(plain_word().is_word() && plain_word().is_word_like());
    let and = TokenKind::Word(WordMetadata {
        linking_verb: false,
        conjunction: true,
        likely_homograph: true,
    });
    assert!(and.is_conjunction() && and.is_likely_homograph());
    assert!(!plain_word().is_conjunction() && !plain_word().is_likely_homograph());
    assert!(and.is(TokenClass::Conjunction) && !and.is(TokenClass::Number));
    assert_eq!(TokenKind::default(), TokenKind::Unlintable);
}
