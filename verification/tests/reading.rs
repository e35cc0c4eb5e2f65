use mal::reader::read_str;
use mal::reader::tokenize;
use mal::reader::ReadErr;
use mal::types::ListKind;
use mal::types::MalHashKey;
use mal::types::MalType;

#[test]
fn test_tokenize_basic() {
    let toks = tokenize("(+ 1 2)");
    let texts: Vec<&str> = toks.iter().map(|t| t.as_str()).collect();
    assert_eq!(texts, vec!["(", "+", "1", "2", ")"]);
}

#[test]
fn test_tokenize_drops_comments_and_commas() {
    let toks = tokenize("[1, 2] ; trailing words\n:kw");
    let texts: Vec<&str> = toks.iter().map(|t| t.as_str()).collect();
    assert_eq!(texts, vec!["[", "1", "2", "]", ":kw"]);
}

#[test]
fn test_tokenize_splice_unquote() {
    let toks = tokenize("~@(a b) @x");
    let texts: Vec<&str> = toks.iter().map(|t| t.as_str()).collect();
    assert_eq!(texts, vec!["~@", "(", "a", "b", ")", "@", "x"]);
}

#[test]
fn test_tokenize_string_token() {
    let toks = tokenize("\"a b\\\" c\"");
    let texts: Vec<&str> = toks.iter().map(|t| t.as_str()).collect();
    assert_eq!(texts, vec!["\"a b\\\" c\""]);
}

#[test]
fn test_read_number() {
    match read_str("42") {
        Ok(MalType::Number(n)) => assert_eq!(n, 42),
        other => panic!("expected a number, got {:?}", other.is_ok()),
    }
}

#[test]
fn test_read_negative_is_symbol() {
    match read_str("-7") {
        Ok(MalType::Symbol(s)) => assert_eq!(s, "-7"),
        _ => panic!("a token starting with a minus reads as a symbol"),
    }
}

#[test]
fn test_read_literals() {
    assert!(matches!(read_str("nil"), Ok(MalType::Nil)));
    assert!(matches!(read_str("true"), Ok(MalType::Bool(true))));
    assert!(matches!(read_str("false"), Ok(MalType::Bool(false))));
}

#[test]
fn test_read_keyword_strips_colon() {
    match read_str(":abc") {
        Ok(MalType::Keyword(k)) => assert_eq!(k, "abc"),
        _ => panic!("expected a keyword"),
    }
}

#[test]
fn test_read_string_unescapes() {
    match read_str("\"a\\n\\\"b\\\\c\"") {
        Ok(MalType::String(s)) => assert_eq!(s, "a\n\"b\\c"),
        _ => panic!("expected a string"),
    }
}

#[test]
fn test_read_list_and_vector() {
    match read_str("(1 (2) [3 4])") {
        Ok(MalType::L(ListKind::List, items)) => {
            assert_eq!(items.len(), 3);
            assert!(matches!(items[0], MalType::Number(1)));
            assert!(matches!(&items[1], MalType::L(ListKind::List, inner) if inner.len() == 1));
            assert!(matches!(&items[2], MalType::L(ListKind::Vector, inner) if inner.len() == 2));
        },
        _ => panic!("expected a list"),
    }
}

#[test]
fn test_read_quote_sugar() {
    match read_str("'x") {
        Ok(MalType::L(ListKind::List, items)) => {
            assert!(matches!(&items[0], MalType::Symbol(s) if s == "quote"));
            assert!(matches!(&items[1], MalType::Symbol(s) if s == "x"));
        },
        _ => panic!("expected the quote desugaring"),
    }
}

#[test]
fn test_read_hashmap() {
    match read_str("{\"a\" 1 :b 2}") {
        Ok(MalType::HashMap(entries)) => {
            assert_eq!(entries.len(), 2);
            assert!(matches!(&entries[0].0, MalHashKey::String(s) if s == "a"));
            assert!(matches!(&entries[1].0, MalHashKey::Keyword(s) if s == "b"));
        },
        _ => panic!("expected a hash-map"),
    }
}

#[test]
fn test_read_hashmap_duplicate_key_replaces() {
    match read_str("{:a 1 :a 2}") {
        Ok(MalType::HashMap(entries)) => {
            assert_eq!(entries.len(), 1);
            assert!(matches!(entries[0].1, MalType::Number(2)));
        },
        _ => panic!("expected a hash-map"),
    }
}

#[test]
fn test_read_unbalanced_list_is_error() {
    assert!(matches!(read_str("(1 2"), Err(ReadErr::Eof)));
}

#[test]
fn test_read_unterminated_string_is_error() {
    assert!(matches!(read_str("\"abc"), Err(ReadErr::Unbalanced)));
}

#[test]
fn test_read_bad_hashmap_key_is_error() {
    assert!(matches!(read_str("{1 2}"), Err(ReadErr::InvalidHashmapKey)));
}

#[test]
fn test_read_odd_hashmap_is_error() {
    assert!(matches!(read_str("{\"a\"}"), Err(ReadErr::NoValueForHashmapKey)));
}

#[test]
fn test_read_mismatched_closer_is_error() {
    assert!(matches!(read_str("(1 2]"), Err(ReadErr::ImproperlyClosedList)));
}

#[test]
fn test_read_bad_escape_is_error() {
    assert!(matches!(read_str("\"a\\x\""), Err(ReadErr::InvalidEscape)));
}

#[test]
fn test_read_bad_number_is_error() {
    assert!(matches!(read_str("12ab"), Err(ReadErr::InvalidNumber)));
    assert!(matches!(read_str("1.5"), Err(ReadErr::InvalidNumber)));
}

#[test]
fn test_read_empty_input_is_error() {
    assert!(matches!(read_str(""), Err(ReadErr::Eof)));
}

#[test]
fn test_read_empty_list() {
    match read_str("()") {
        Ok(MalType::L(ListKind::List, items)) => assert_eq!(items.len(), 0),
        _ => panic!("expected the empty list"),
    }
}

#[test]
fn test_reader_peek_and_next() {
    let mut r = mal::reader::Reader::new("(a)");
    assert_eq!(r.peek().unwrap(), "(");
    assert_eq!(r.next().unwrap(), "(");
    assert_eq!(r.next().unwrap(), "a");
    assert_eq!(r.next().unwrap(), ")");
    assert!(matches!(r.next(), Err(ReadErr::Eof)));
}

#[test]
fn test_round_trip_atoms() {
    for text in ["nil", "true", "false", "42", "0", ":kw", "abc", "\"a\\n\\\"b\\\\c\"", "\"\""] {
        let v = read_str(text).unwrap();
        let rendered = mal::print(v);
        let again = read_str(rendered.as_str()).unwrap();
        let v2 = read_str(text).unwrap();
        assert!(again.mal_equiv(&v2), "round trip changed {}", text);
    }
}

#[test]
fn test_read_other_quote_sugar() {
    for (text, name) in [
        ("`x", "quasiquote"),
        ("~x", "unquote"),
        ("~@x", "splice-unquote"),
        ("@x", "deref"),
    ] {
        match read_str(text) {
            Ok(MalType::L(ListKind::List, items)) => {
                assert!(matches!(&items[0], MalType::Symbol(s) if s == name));
            },
            _ => panic!("expected {} to desugar to {}", text, name),
        }
    }
}

#[test]
fn test_trailing_tokens_are_ignored() {
    match read_str("1 2 3") {
        Ok(MalType::Number(n)) => assert_eq!(n, 1),
        _ => panic!("expected the first form alone"),
    }
}

#[test]
fn test_symbols_may_hold_punctuation() {
    match read_str("a@b^c") {
        Ok(MalType::Symbol(s)) => assert_eq!(s, "a@b^c"),
        _ => panic!("expected one symbol token"),
    }
}
