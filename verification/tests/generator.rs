use cas_number::random_cas_number;
use cas_number::validate;

fn first_segment_len(text: &[u8]) -> usize {
    text.iter().position(|&b| b == b'-').expect("generated text has a hyphen")
}

#[test]
fn generated_values_validate_within_the_grammar_bound() {
    for _ in 0..10_000 {
        let v = random_cas_number();
        let text = v.render();
        let k = first_segment_len(&text);
        assert!((4..=8).contains(&k));
        if k <= 7 {
            // Within the grammar's bound the generated value is well-formed.
            assert!(validate(&text));
        } else {
            // An eight-digit first segment falls outside the grammar.
            assert!(!validate(&text));
        }
    }
}

#[test]
fn generated_values_round_trip_within_the_grammar_bound() {
    let mut round_tripped = 0u32;
    while round_tripped < 1_000 {
        let v = random_cas_number();
        let text = v.render();
        if first_segment_len(&text) <= 7 {
            let reparsed = cas_number::CasNumber::parse(&text).unwrap();
            assert!(reparsed.equal(&v));
            assert_eq!(reparsed.render(), text);
            round_tripped += 1;
        }
    }
}

#[test]
fn generated_digits_stay_below_nine() {
    for _ in 0..5_000 {
        let text = random_cas_number().render();
        // Every digit but the trailing check digit is drawn from 0..=8,
        // and the leading one from 1..=8.
        assert!(text[0] >= b'1' && text[0] <= b'8');
        for &b in &text[..text.len() - 1] {
            assert!(b != b'9');
        }
    }
}

#[test]
fn first_segment_lengths_are_roughly_uniform() {
    let n = 10_000u32;
    let mut counts = [0u32; 9];
    for _ in 0..n {
        let text = random_cas_number().render();
        counts[first_segment_len(&text)] += 1;
    }
    for k in 4..=8 {
        // Expect about 2000 of each length; allow a wide margin.
        assert!(counts[k] > 1_400, "length {} drawn only {} times", k, counts[k]);
        assert!(counts[k] < 2_600, "length {} drawn {} times", k, counts[k]);
    }
}
