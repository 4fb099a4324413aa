use sqlite_robotstxt::robotstxt_matches;
use sqlite_robotstxt::text::accepts;
use sqlite_robotstxt::utils::parse;

const ALPHABET: [char; 16] = [
    'a', 'b', '\n', '\r', '\u{e9}', '\u{20ac}', '\u{1f600}', '\u{ef}', '\u{bb}', '\u{bf}', ':',
    '#', ' ', '%', '/', '\t',
];

fn next(state: &mut u64) -> u64 {
    *state = state.wrapping_mul(6364136223846793005).wrapping_add(1442695040888963407);
    *state >> 33
}

fn sample(state: &mut u64) -> String {
    let mut text = String::new();
    let pieces = next(state) % 6;
    for _ in 0..pieces {
        let letter = ALPHABET[(next(state) % 16) as usize];
        let run = match next(state) % 4 {
            0 => 16600 + next(state) % 80,
            1 => 5500 + next(state) % 100,
            _ => next(state) % 5,
        };
        for _ in 0..run {
            text.push(letter);
        }
        for _ in 0..next(state) % 4 {
            text.push(ALPHABET[(next(state) % 16) as usize]);
        }
    }
    text
}

#[test]
fn every_accepted_text_is_parsed() {
    let mut state: u64 = 7;
    let mut accepted = 0;
    let mut refused = 0;
    for _ in 0..400 {
        let text = sample(&mut state);
        if accepts(&text) {
            accepted += 1;
            let info = parse(&text);
            assert_eq!(info.current_user_agent, None);
            assert!(robotstxt_matches(&text, "a", "http://x/a").is_ok());
        } else {
            refused += 1;
            assert!(robotstxt_matches(&text, "a", "http://x/a").is_err());
        }
    }
    assert!(accepted > 300);
    assert!(refused > 40);
}
