use lifetimes::tokenizer::{until_char, StrTok};

fn all_tokens(haystack: &str, delimiter: &str) -> Vec<String> {
    let mut words = StrTok::new(haystack.to_string(), delimiter.to_string());
    let mut out = Vec::new();
    while let Some(w) = words.next() {
        out.push(w);
    }
    out
}

#[test]
fn split() {
    let s = " ";
    let (b, a) = s.split_at(0);
    println!("b = {:?}, a = {:?}", b, a);
    let (b, a) = s.split_at(1);
    println!("b = {:?}, a = {:?}", b, a);
}

#[test]
fn test1() {
    let haystack = "Quick brown fox";
    let mut words = StrTok::new(haystack.to_string(), " ".to_string());

    assert_eq!(words.next(), Some("Quick".to_string()));
    assert_eq!(words.next(), Some("brown".to_string()));
    assert_eq!(words.next(), Some("fox".to_string()));
    assert_eq!(words.next(), None);
}

#[test]
fn test2() {
    let haystack = "Quick brown fox ";
    let mut words = StrTok::new(haystack.to_string(), " ".to_string());

    assert_eq!(words.next(), Some("Quick".to_string()));
    assert_eq!(words.next(), Some("brown".to_string()));
    assert_eq!(words.next(), Some("fox".to_string()));
    assert_eq!(words.next(), Some("".to_string()));
    assert_eq!(words.next(), None);
}

#[test]
fn test3() {
    let haystack = " ";
    let mut words = StrTok::new(haystack.to_string(), " ".to_string());

    assert_eq!(words.next(), Some("".to_string()));
    assert_eq!(words.next(), Some("".to_string()));
    assert_eq!(words.next(), None);
}

#[test]
fn test4() {
    let haystack = "Quick brown fox ";
    let delim = ' ';

    let result = until_char(haystack, delim);
    assert_eq!(result, "Quick");
}

#[test]
fn empty_haystack_gives_one_empty_token() {
    assert_eq!(all_tokens("", ","), vec!["".to_string()]);
}

#[test]
fn empty_delimiter_leaves_text_whole() {
    assert_eq!(all_tokens("a b", ""), vec!["a b".to_string()]);
}

#[test]
fn exhausted_tokenizer_stays_exhausted() {
    let mut words = StrTok::new("a".to_string(), ",".to_string());
    assert_eq!(words.next(), Some("a".to_string()));
    assert_eq!(words.next(), None);
    assert_eq!(words.next(), None);
}

#[test]
fn multi_character_delimiter() {
    assert_eq!(
        all_tokens("one::two::three", "::"),
        vec!["one".to_string(), "two".to_string(), "three".to_string()]
    );
}

#[test]
fn matches_are_leftmost_and_do_not_overlap() {
    assert_eq!(
        all_tokens("aaaaa", "aa"),
        vec!["".to_string(), "".to_string(), "a".to_string()]
    );
}

#[test]
fn leading_and_repeated_delimiters_give_empty_tokens() {
    assert_eq!(
        all_tokens(",a,,b", ","),
        vec!["".to_string(), "a".to_string(), "".to_string(), "b".to_string()]
    );
}

#[test]
fn delimiter_longer_than_text() {
    assert_eq!(all_tokens("ab", "abc"), vec!["ab".to_string()]);
}

#[test]
fn non_ascii_text_and_delimiter() {
    assert_eq!(
        all_tokens("grüße→welt→ß", "→"),
        vec!["grüße".to_string(), "welt".to_string(), "ß".to_string()]
    );
}

#[test]
fn joining_tokens_gives_text_back() {
    for (text, delim) in [("a,b,,c,", ","), ("xyxyx", "xy"), ("", "-"), ("no match", "#")] {
        assert_eq!(all_tokens(text, delim).join(delim), text);
    }
}

#[test]
fn no_token_holds_the_delimiter() {
    for (text, delim) in [("a,b,,c,", ","), ("aaaaa", "aa"), ("x--y---z", "--")] {
        for t in all_tokens(text, delim) {
            assert!(!t.contains(delim), "{t:?} holds {delim:?}");
        }
    }
}

#[test]
fn until_char_without_the_char_is_everything() {
    assert_eq!(until_char("Quick", ' '), "Quick");
}

#[test]
fn until_char_at_the_start_is_empty() {
    assert_eq!(until_char(" Quick", ' '), "");
    assert_eq!(until_char("", ' '), "");
}

#[test]
fn until_char_non_ascii() {
    assert_eq!(until_char("naïve→x→y", '→'), "naïve");
}

#[test]
fn until_char_is_the_first_token() {
    for text in ["a b c", " x", "none", ""] {
        let mut words = StrTok::new(text.to_string(), " ".to_string());
        assert_eq!(words.next().as_deref(), Some(until_char(text, ' ')));
    }
}
