use rpte::text::{split_words, trim};

#[test]
fn white_space_is_cut_off() {
    let mut spaces = Vec::new();
    for n in 0..=0x10ffffu32 {
        if let Some(c) = char::from_u32(n) {
            if trim(&vec![c]).is_empty() {
                spaces.push(n);
            }
        }
    }
    let mut expected: Vec<u32> = (0x9..=0xd).collect();
    expected.extend([0x20, 0x85, 0xa0, 0x1680]);
    expected.extend(0x2000..=0x200au32);
    expected.extend([0x2028, 0x2029, 0x202f, 0x205f, 0x3000]);
    assert_eq!(spaces, expected);
}

#[test]
fn words_stand_between_white_space() {
    let line: Vec<char> = "  make\tUSDT \u{3000}BTC ".chars().collect();
    let words: Vec<String> = split_words(&line).iter().map(|w| w.iter().collect()).collect();
    assert_eq!(words, vec!["make", "USDT", "BTC"]);
}
