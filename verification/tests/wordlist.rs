use pretty_ens::text::is_white_space;
use pretty_ens::wordlist::{
    calculate_wordlist_hash, check_fetch_status, fetch_wordlist, get_preset, list_presets,
    load_wordlist, parse_wordlist_content, to_hex, WordlistError, CHECKPOINT_SAVE_INTERVAL,
    MAX_NAME_LENGTH, MIN_NAME_LENGTH,
};

#[test]
fn test_parse_simple_wordlist() {
    let content = "hello\nworld\ntest";
    let words = parse_wordlist_content(content);
    assert_eq!(words, vec!["hello", "world", "test"]);
}

#[test]
fn test_parse_eff_format() {
    let content = "11111\tabacus\n11112\tabdomen\n11113\tabide";
    let words = parse_wordlist_content(content);
    assert_eq!(words, vec!["abacus", "abdomen", "abide"]);
}

#[test]
fn test_parse_filters_invalid() {
    let content = "# comment\nhello\nthis-has-dash\nVALID\n123numeric";
    let words = parse_wordlist_content(content);
    assert_eq!(words, vec!["hello", "valid"]);
}

#[test]
fn test_hash_consistency() {
    let words = vec!["hello".to_string(), "world".to_string()];
    let hash1 = calculate_wordlist_hash(&words);
    let hash2 = calculate_wordlist_hash(&words);
    assert_eq!(hash1, hash2);
}

#[test]
fn limits_of_names() {
    assert_eq!((MIN_NAME_LENGTH, MAX_NAME_LENGTH, CHECKPOINT_SAVE_INTERVAL), (1, 30, 10));
    let longest = "a".repeat(30);
    let too_long = "a".repeat(31);
    let content = format!("{}\n{}\nb", longest, too_long);
    assert_eq!(parse_wordlist_content(&content), vec![longest, "b".to_string()]);
}

#[test]
fn blank_lines_line_ends_and_white_space() {
    assert!(parse_wordlist_content("").is_empty());
    assert!(parse_wordlist_content("\n\r\n \t \n").is_empty());
    let words = parse_wordlist_content("\u{3000}one \r\n\u{a0}two\u{2003}\n#three\n # four\nfi\rve\nsix");
    assert_eq!(words, vec!["one", "two", "six"]);
}

#[test]
fn fields_behind_the_last_tab() {
    let words = parse_wordlist_content("1\t2\tLast\nx\t  spaced  \n#\tcomment\nfirst \t 9x");
    assert_eq!(words, vec!["last", "spaced"]);
}

#[test]
fn lower_case_beyond_ascii() {
    // The sign of the unit kelvin has a small Latin letter as its lower case.
    assert_eq!(parse_wordlist_content("\u{212a}elvin"), vec!["kelvin"]);
    assert!(parse_wordlist_content("caf\u{e9}\n\u{c9}t\u{e9}\n\u{130}x").is_empty());
}

#[test]
fn white_space_is_that_of_the_standard_library() {
    for n in 0..=0x10ffffu32 {
        if let Some(c) = char::from_u32(n) {
            assert_eq!(is_white_space(c), c.is_whitespace(), "{:?}", c);
        }
    }
}

#[test]
fn parsing_agrees_with_the_standard_library() {
    let content = "Alpha\r\n\n\t beta\u{85}\nga mma\r\n#no\r\ndelta\tEpsilon\t\n\u{2028}zeta\u{200b}\neta\r\r\nT\u{212a}";
    let expected: Vec<String> = content
        .lines()
        .filter_map(|line| {
            let line = line.trim();
            if line.is_empty() || line.starts_with('#') {
                return None;
            }
            let word = line.split('\t').last().unwrap_or(line).trim().to_lowercase();
            let ok = word.chars().all(|c| c.is_ascii_alphabetic());
            if ok && word.len() >= 1 && word.len() <= 30 {
                Some(word)
            } else {
                None
            }
        })
        .collect();
    assert_eq!(parse_wordlist_content(content), expected);
    assert_eq!(expected, vec!["alpha", "beta", "epsilon", "eta", "tk"]);
}

#[test]
fn lists_one_below_the_other() {
    let a = "one\ntwo\n#";
    let b = "x\n\nthree";
    let mut both = parse_wordlist_content(a);
    both.extend(parse_wordlist_content(b));
    assert_eq!(parse_wordlist_content(&format!("{}\n{}", a, b)), both);
}

#[test]
fn hash_values() {
    let words = vec!["hello".to_string(), "world".to_string()];
    assert_eq!(
        calculate_wordlist_hash(&words),
        "4a1e67f2fe1d1cc7b31d0ca2ec441da4778203a036a77da10344c85e24ff0f92"
    );
    assert_eq!(
        calculate_wordlist_hash(&[]),
        "e3b0c44298fc1c149afbf4c8996fb92427ae41e4649b934ca495991b7852b855"
    );
    let split = vec!["hell".to_string(), "oworld".to_string()];
    assert_ne!(calculate_wordlist_hash(&split), calculate_wordlist_hash(&words));
}

#[test]
fn hexadecimal() {
    assert_eq!(to_hex(&vec![0, 9, 10, 15, 16, 159, 160, 255]), "00090a0f109fa0ff");
    assert_eq!(to_hex(&vec![]), "");
}

#[test]
fn loaded_words() {
    assert_eq!(load_wordlist("b\na", "list.txt").unwrap(), vec!["b", "a"]);
    let e = load_wordlist("1\n2", "list.txt").unwrap_err();
    assert!(matches!(e, WordlistError::NoWordsIn(_)));
    assert_eq!(e.message(), "No valid words found in list.txt");
}

#[test]
fn fetched_words_read_back() {
    let f = fetch_wordlist("# header\n1\tAlpha\n2\tbeta\n3\t4\n").unwrap();
    assert_eq!(f.content, "alpha\nbeta");
    assert_eq!(f.count, 2);
    assert_eq!(load_wordlist(&f.content, "x").unwrap(), vec!["alpha", "beta"]);
    let e = fetch_wordlist("# nothing\n").unwrap_err();
    assert!(matches!(e, WordlistError::NoWords));
    assert_eq!(e.message(), "No valid words found in the wordlist");
}

#[test]
fn fetch_statuses() {
    assert!(check_fetch_status(200, "200 OK").is_ok());
    assert!(check_fetch_status(299, "299").is_ok());
    assert!(check_fetch_status(199, "199").is_err());
    let e = check_fetch_status(404, "404 Not Found").unwrap_err();
    assert!(matches!(e, WordlistError::HttpStatus(_)));
    assert_eq!(e.message(), "Failed to fetch wordlist: HTTP 404 Not Found");
}

#[test]
fn presets_by_name() {
    let names: Vec<&str> = list_presets().iter().map(|p| p.0).collect();
    assert_eq!(names, vec!["eff", "common-10k", "common-3k", "bip39"]);
    for (name, description) in list_presets() {
        let p = get_preset(name).unwrap();
        assert_eq!((p.0, p.1), (name, description));
    }
    assert_eq!(
        get_preset("bip39"),
        Some((
            "bip39",
            "BIP39 English wordlist (2048 words)",
            "https://raw.githubusercontent.com/bitcoin/bips/master/bip-0039/english.txt"
        ))
    );
    assert_eq!(get_preset("EFF"), None);
    assert_eq!(get_preset(""), None);
}
