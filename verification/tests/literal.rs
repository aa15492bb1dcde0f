use pipeline_preview::literal::{parse_literal, Literal};

fn float(text: &str) -> Literal {
    Literal::Float(text.to_string())
}

fn text(text: &str) -> Literal {
    Literal::Text(text.to_string())
}

#[test]
fn integers_are_read_first() {
    assert_eq!(parse_literal("10"), Literal::Int(10));
    assert_eq!(parse_literal("0"), Literal::Int(0));
    assert_eq!(parse_literal("-7"), Literal::Int(-7));
    assert_eq!(parse_literal("+7"), Literal::Int(7));
    assert_eq!(parse_literal("-0"), Literal::Int(0));
    assert_eq!(parse_literal("0012"), Literal::Int(12));
}

#[test]
fn integer_limits() {
    assert_eq!(parse_literal("9223372036854775807"), Literal::Int(i64::MAX));
    assert_eq!(parse_literal("-9223372036854775808"), Literal::Int(i64::MIN));
    assert_eq!(parse_literal("0000000000000000000000000009223372036854775807"), Literal::Int(i64::MAX));
}

#[test]
fn integers_out_of_range_are_floats() {
    assert_eq!(parse_literal("9223372036854775808"), float("9223372036854775808"));
    assert_eq!(parse_literal("-9223372036854775809"), float("-9223372036854775809"));
    assert_eq!(parse_literal("99999999999999999999999999"), float("99999999999999999999999999"));
}

#[test]
fn floats_are_read_second() {
    for input in ["1.5", "-3.14", "2.5E10", "2.5e-10", "5.", ".5", "+.5e+3", "1e5", "inf", "-inf", "+infinity", "NaN", "nan", "iNfInItY", "1.e2"] {
        assert_eq!(parse_literal(input), float(input), "{input}");
    }
}

#[test]
fn booleans_are_read_third() {
    assert_eq!(parse_literal("true"), Literal::Bool(true));
    assert_eq!(parse_literal("false"), Literal::Bool(false));
}

#[test]
fn everything_else_is_text() {
    for input in ["", "x", "True", "FALSE", " 1", "1 ", "1_000", "0x10", "+", "-", ".", "e5", "1e", "1e+", "--1", "1.2.3", "infinit", "na", "nane", "1,5", "١٢", "é", "1e5x", ".e1", "+-1", "t", "truee"] {
        assert_eq!(parse_literal(input), text(input), "{input:?}");
    }
}

#[test]
fn agrees_with_the_standard_parsers() {
    let pieces = ["", "+", "-", "0", "7", "12", ".", "e", "E", "inf", "nan", "infinity", "true", "x", " "];
    for a in pieces {
        for b in pieces {
            for c in pieces {
                let input = format!("{a}{b}{c}");
                let expected = if let Ok(i) = input.parse::<i64>() {
                    Literal::Int(i)
                } else if input.parse::<f64>().is_ok() {
                    Literal::Float(input.clone())
                } else if let Ok(b) = input.parse::<bool>() {
                    Literal::Bool(b)
                } else {
                    Literal::Text(input.clone())
                };
                assert_eq!(parse_literal(&input), expected, "{input:?}");
            }
        }
    }
}

#[test]
fn agrees_with_the_standard_parsers_on_long_digit_runs() {
    for digits in 17..23 {
        for lead in ["1", "9", "-1", "-9", "+9", "-92233720368547758", "92233720368547758"] {
            let mut input = lead.to_string();
            while input.trim_start_matches(['+', '-']).len() < digits {
                input.push('0');
            }
            for last in ["", "7", "8", "9"] {
                let input = format!("{input}{last}");
                let expected = match input.parse::<i64>() {
                    Ok(i) => Literal::Int(i),
                    Err(_) => Literal::Float(input.clone()),
                };
                assert_eq!(parse_literal(&input), expected, "{input:?}");
            }
        }
    }
}

fn expected_by_the_standard_parsers(input: &str) -> Literal {
    if let Ok(i) = input.parse::<i64>() {
        Literal::Int(i)
    } else if input.parse::<f64>().is_ok() {
        Literal::Float(input.to_string())
    } else if let Ok(b) = input.parse::<bool>() {
        Literal::Bool(b)
    } else {
        Literal::Text(input.to_string())
    }
}

#[test]
fn agrees_with_the_standard_parsers_on_every_short_text() {
    let alphabet = ['+', '-', '.', 'e', 'E', '0', '9', 'i', 'N', 'f', 'a', ' ', '_'];
    let mut texts = vec![String::new()];
    for _ in 0..5 {
        let mut longer = Vec::new();
        for text in &texts {
            for c in alphabet {
                let mut next = text.clone();
                next.push(c);
                longer.push(next);
            }
        }
        for text in &longer {
            assert_eq!(parse_literal(text), expected_by_the_standard_parsers(text), "{text:?}");
        }
        texts = longer;
    }
}

#[test]
fn agrees_with_the_standard_parsers_on_special_words() {
    let letters = [['i', 'I'], ['n', 'N'], ['f', 'F'], ['i', 'I'], ['n', 'N'], ['i', 'I'], ['t', 'T'], ['y', 'Y']];
    for len in [2usize, 3, 4, 7, 8] {
        for mask in 0..(1u32 << len) {
            let word: String = (0..len).map(|k| letters[k][((mask >> k) & 1) as usize]).collect();
            for sign in ["", "+", "-", "++"] {
                let input = format!("{sign}{word}");
                assert_eq!(parse_literal(&input), expected_by_the_standard_parsers(&input), "{input:?}");
            }
        }
    }
    for input in ["nan", "NAN", "nAn", "-nan", "+NaN", "nana", "na", "Ｎan", "ınf", "İnf", "infinitY", "infinitye"] {
        assert_eq!(parse_literal(input), expected_by_the_standard_parsers(input), "{input:?}");
    }
}
