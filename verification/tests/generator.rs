use random_string_rs::generator::generate;
use random_string_rs::regex::{Pattern, Primitive};

#[test]
fn test_generate() {
    assert_eq!(
        generate(Pattern::Word(Box::new(Primitive::Char('a'))), 100),
        "a"
    );
    assert_eq!(
        generate(Pattern::Word(Box::new(Primitive::Digit)), 100),
        "2"
    );
    assert_eq!(
        generate(Pattern::Word(Box::new(Primitive::Alphabetic)), 100),
        "p"
    );
    assert_eq!(
        generate(Pattern::Loop(Box::new(Primitive::Digit), 10, 10), 1),
        "0076457289"
    );
    assert_eq!(
        generate(Pattern::Loop(Box::new(Primitive::Digit), 2, 2), 100),
        "26"
    );
    assert_eq!(
        generate(Pattern::Loop(Box::new(Primitive::Digit), 1, 10), 10202),
        "3996912"
    );
    assert_eq!(
        generate(
            Pattern::Loop(
                Box::new(Primitive::Group(Box::new(Pattern::Word(Box::new(
                    Primitive::Alphabetic
                ))))),
                3,
                3
            ),
            10202
        ),
        "xzi"
    );
    assert_eq!(
        generate(
            Pattern::Loop(Box::new(Primitive::Alt("123".to_string())), 4, 5),
            1021
        ),
        "2331"
    );
    assert_eq!(
        generate(
            Pattern::Loop(Box::new(Primitive::Alt("あ".to_string())), 1, 1),
            1021
        ),
        "あ"
    );
    assert_eq!(
        generate(
            Pattern::Word(Box::new(Primitive::Or(
                Box::new(Pattern::Word(Box::new(Primitive::Digit))),
                Box::new(Pattern::Word(Box::new(Primitive::Alphabetic))),
            ))),
            101
        ),
        "5"
    );
}
