use rand_xoshiro::rand_core::SeedableRng;
use rand_xoshiro::Xoshiro256StarStar;
use random_string_rs::generator::{
    digit_char, draw_count, generate, generate_repeated, letter_char, pick_branch,
    pick_member,
};
use random_string_rs::parser::{
    parse, parse_alt, parse_alphabetic, parse_bounds, parse_char, parse_digit, parse_group,
    parse_loop, parse_number, parse_primitive, parse_sequence, reserved, Error,
};
use random_string_rs::regex::{Pattern, Primitive};
use random_string_rs::text::{char_at, chars_of, text_of};

fn word(p: Primitive) -> Pattern {
    Pattern::Word(Box::new(p))
}

fn chars(text: &str) -> Vec<char> {
    text.chars().collect()
}

#[test]
fn nothing_to_read_is_a_parse_error() {
    assert_eq!(parse(""), Err(Error::ParseError));
    assert_eq!(parse("\n"), Err(Error::ParseError));
    assert_eq!(parse("\r\n"), Err(Error::ParseError));
    assert_eq!(parse("{"), Err(Error::ParseError));
    assert_eq!(parse("{1,2}"), Err(Error::ParseError));
    assert_eq!(parse(")"), Err(Error::ParseError));
    assert_eq!(parse("]"), Err(Error::ParseError));
    assert_eq!(parse("()"), Err(Error::ParseError));
    assert_eq!(parse("[]"), Err(Error::ParseError));
    assert_eq!(parse("[a"), Err(Error::ParseError));
    assert_eq!(parse("(a"), Err(Error::ParseError));
}

#[test]
fn what_is_left_comes_back() {
    assert_eq!(
        parse("a()"),
        Err(Error::UnTerminatedError("()".to_string()))
    );
    assert_eq!(
        parse("ab)"),
        Err(Error::UnTerminatedError(")".to_string()))
    );
    assert_eq!(
        parse("\\b{1,}"),
        Err(Error::UnTerminatedError("{1,}".to_string()))
    );
    assert_eq!(
        parse("\\b{}"),
        Err(Error::UnTerminatedError("{}".to_string()))
    );
    assert_eq!(
        parse("\\b{,3}"),
        Err(Error::UnTerminatedError("{,3}".to_string()))
    );
    assert_eq!(
        parse("\\b{1 }"),
        Err(Error::UnTerminatedError("{1 }".to_string()))
    );
    assert_eq!(
        parse("あ[い"),
        Err(Error::UnTerminatedError("[い".to_string()))
    );
}

#[test]
fn bounds_that_do_not_fit_are_left_unread() {
    assert_eq!(
        parse("\\b{18446744073709551615}"),
        Ok(Pattern::Loop(
            Box::new(Primitive::Digit),
            18446744073709551615,
            18446744073709551615
        ))
    );
    assert_eq!(
        parse("\\b{0,18446744073709551615}"),
        Ok(Pattern::Loop(
            Box::new(Primitive::Digit),
            0,
            18446744073709551615
        ))
    );
    assert_eq!(
        parse("\\b{18446744073709551616}"),
        Err(Error::UnTerminatedError(
            "{18446744073709551616}".to_string()
        ))
    );
    assert_eq!(
        parse("\\b{1,99999999999999999999999999}"),
        Err(Error::UnTerminatedError(
            "{1,99999999999999999999999999}".to_string()
        ))
    );
    assert_eq!(
        parse("\\b{0000000000000000000000000007}"),
        Ok(Pattern::Loop(Box::new(Primitive::Digit), 7, 7))
    );
}

#[test]
fn star_and_plus_are_characters_where_nothing_stands_before_them() {
    assert_eq!(parse("*"), Ok(word(Primitive::Char('*'))));
    assert_eq!(parse("+"), Ok(word(Primitive::Char('+'))));
    assert_eq!(
        parse("**"),
        Ok(Pattern::Loop(Box::new(Primitive::Char('*')), 0, 100))
    );
    assert_eq!(
        parse("\\b*+"),
        Ok(Pattern::Sequence(vec![
            Box::new(Pattern::Loop(Box::new(Primitive::Digit), 0, 100)),
            Box::new(word(Primitive::Char('+'))),
        ]))
    );
    assert_eq!(
        parse("\\x"),
        Ok(Pattern::Sequence(vec![
            Box::new(word(Primitive::Char('\\'))),
            Box::new(word(Primitive::Char('x'))),
        ]))
    );
}

#[test]
fn groups_nest_and_repeat() {
    assert_eq!(
        parse("((a))"),
        Ok(word(Primitive::Group(Box::new(word(Primitive::Group(
            Box::new(word(Primitive::Char('a')))
        ))))))
    );
    assert_eq!(
        parse("(ab){2,3}"),
        Ok(Pattern::Loop(
            Box::new(Primitive::Group(Box::new(Pattern::Sequence(vec![
                Box::new(word(Primitive::Char('a'))),
                Box::new(word(Primitive::Char('b'))),
            ])))),
            2,
            3
        ))
    );
    assert_eq!(
        parse("[(){}\n]x"),
        Ok(Pattern::Sequence(vec![
            Box::new(word(Primitive::Alt("(){}\n".to_string()))),
            Box::new(word(Primitive::Char('x'))),
        ]))
    );
}

#[test]
fn each_reader_reads_its_own() {
    let s = chars("x\\b\\w(a)[bc]{2,5}*+");
    assert_eq!(parse_char(&s, 0), Some((Primitive::Char('x'), 1)));
    assert_eq!(parse_char(&s, 5), None);
    assert_eq!(parse_char(&s, s.len()), None);
    assert_eq!(parse_digit(&s, 1), Some((Primitive::Digit, 3)));
    assert_eq!(parse_digit(&s, 3), None);
    assert_eq!(parse_alphabetic(&s, 3), Some((Primitive::Alphabetic, 5)));
    assert_eq!(parse_alphabetic(&s, 1), None);
    assert_eq!(
        parse_group(&s, 5),
        Some((Primitive::Group(Box::new(word(Primitive::Char('a')))), 8))
    );
    assert_eq!(parse_group(&s, 0), None);
    assert_eq!(parse_alt(&s, 8), Some((Primitive::Alt("bc".to_string()), 12)));
    assert_eq!(parse_alt(&s, 0), None);
    assert_eq!(parse_bounds(&s, 12), Some(((2, 5), 17)));
    assert_eq!(parse_bounds(&s, 17), Some(((0, 100), 18)));
    assert_eq!(parse_bounds(&s, 18), Some(((1, 100), 19)));
    assert_eq!(parse_bounds(&s, 19), None);
    assert_eq!(parse_bounds(&s, 0), None);
    assert_eq!(parse_number(&s, 13), Some((2, 14)));
    assert_eq!(parse_number(&s, 12), None);
    assert_eq!(parse_number(&chars("123"), 0), Some((123, 3)));
    assert_eq!(parse_number(&chars("0042x"), 0), Some((42, 4)));
    assert_eq!(parse_primitive(&s, 8), Some((Primitive::Alt("bc".to_string()), 12)));
    assert_eq!(
        parse_loop(&s, 8),
        Some((Pattern::Loop(Box::new(Primitive::Alt("bc".to_string())), 2, 5), 17))
    );
    assert_eq!(parse_loop(&s, 0), None);
    assert_eq!(parse_loop(&s, 5), None);
    assert_eq!(parse_loop(&s, 12), None);
    assert_eq!(parse_sequence(&s, 6), Some((word(Primitive::Char('a')), 7)));
    assert_eq!(parse_sequence(&s, 7), None);
}

#[test]
fn reserved_characters() {
    for c in ['\r', '\n', '(', ')', '{', '}', '[', ']'] {
        assert!(reserved(c));
    }
    for c in ['a', '0', '\\', '*', '+', ',', ' ', 'あ', '\t'] {
        assert!(!reserved(c));
    }
}

#[test]
fn texts_and_characters() {
    assert_eq!(chars_of("aあ\n"), vec!['a', 'あ', '\n']);
    assert_eq!(chars_of(""), Vec::<char>::new());
    let s = chars("héllo");
    assert_eq!(char_at(&s, 1), 'é');
    assert_eq!(text_of(&s, 1, 4), "éll");
    assert_eq!(text_of(&s, 2, 2), "");
}

#[test]
fn digits_and_letters() {
    assert_eq!(digit_char(0), '0');
    assert_eq!(digit_char(3), '3');
    assert_eq!(digit_char(9), '9');
    assert_eq!(letter_char(97), 'a');
    assert_eq!(letter_char(122), 'z');
}

#[test]
fn classes_of_none_and_one_draw_nothing() {
    for seed in 0..100u64 {
        assert_eq!(generate(word(Primitive::Alt("".to_string())), seed), "");
        assert_eq!(generate(word(Primitive::Alt("x".to_string())), seed), "x");
        assert_eq!(
            generate(
                Pattern::Loop(Box::new(Primitive::Alt("あ".to_string())), 3, 3),
                seed
            ),
            "あああ"
        );
        assert_eq!(
            generate(
                Pattern::Sequence(vec![
                    Box::new(word(Primitive::Char('a'))),
                    Box::new(Pattern::Loop(Box::new(Primitive::Char('b')), 2, 2)),
                    Box::new(Pattern::Loop(Box::new(Primitive::Char('c')), 0, 0)),
                ]),
                seed
            ),
            "abb"
        );
    }
    assert_eq!(generate(Pattern::Sequence(vec![]), 5), "");
}

#[test]
fn either_branch_is_taken() {
    let either = || {
        word(Primitive::Or(
            Box::new(word(Primitive::Char('l'))),
            Box::new(word(Primitive::Char('r'))),
        ))
    };
    let mut left = 0;
    let mut right = 0;
    for seed in 0..200u64 {
        match generate(either(), seed).as_str() {
            "l" => left += 1,
            "r" => right += 1,
            other => panic!("{}", other),
        }
    }
    assert!(left > 0 && right > 0);
}

#[test]
fn counts_are_drawn_between_the_bounds() {
    for seed in 0..100u64 {
        let mut rng = Xoshiro256StarStar::seed_from_u64(seed);
        assert_eq!(draw_count(&mut rng, 7, 7), 7);
        let k = draw_count(&mut rng, 3, 9);
        assert!(3 <= k && k <= 9);
        let k = draw_count(&mut rng, u64::MAX - 1, u64::MAX);
        assert!(k == u64::MAX - 1 || k == u64::MAX);
        let k = draw_count(&mut rng, 0, u64::MAX);
        let again = draw_count(&mut rng, 0, u64::MAX);
        assert_ne!(k, again);
    }
    let mut first = Xoshiro256StarStar::seed_from_u64(3);
    let mut second = Xoshiro256StarStar::seed_from_u64(3);
    assert_eq!(
        draw_count(&mut first, 5, u64::MAX),
        draw_count(&mut second, 5, u64::MAX)
    );
}

#[test]
fn equal_bounds_leave_the_stream_alone() {
    let mut drawn = Xoshiro256StarStar::seed_from_u64(9);
    let mut kept = Xoshiro256StarStar::seed_from_u64(9);
    assert_eq!(draw_count(&mut drawn, 4, 4), 4);
    assert_eq!(draw_count(&mut drawn, 0, 1000), draw_count(&mut kept, 0, 1000));
}

#[test]
fn well_formed_is_about_the_bounds() {
    assert!(Pattern::Loop(Box::new(Primitive::Digit), 2, 2).is_well_formed());
    assert!(!Pattern::Loop(Box::new(Primitive::Digit), 3, 2).is_well_formed());
    assert!(!word(Primitive::Group(Box::new(Pattern::Sequence(vec![
        Box::new(word(Primitive::Digit)),
        Box::new(Pattern::Loop(Box::new(Primitive::Digit), 1, 0)),
    ]))))
    .is_well_formed());
    assert!(!Primitive::Or(
        Box::new(word(Primitive::Digit)),
        Box::new(Pattern::Loop(Box::new(Primitive::Digit), 9, 8)),
    )
    .is_well_formed());
    assert!(Primitive::Alt("".to_string()).is_well_formed());
}

#[test]
fn copies_are_equal() {
    let p = parse("(a[bc]{2,3}\\w)*\\b").unwrap();
    assert_eq!(p.clone(), p);
    let e = Error::UnTerminatedError("{".to_string());
    assert_eq!(e.clone(), e);
}

#[test]
fn counts_come_from_the_pinned_stream() {
    let mut rng = Xoshiro256StarStar::seed_from_u64(3);
    assert_eq!(draw_count(&mut rng, 0, 1000), 691);
    let mut rng = Xoshiro256StarStar::seed_from_u64(3);
    assert_eq!(draw_count(&mut rng, 5, u64::MAX), 12740027877540924609);
    let mut rng = Xoshiro256StarStar::seed_from_u64(3);
    assert_eq!(draw_count(&mut rng, 0, u64::MAX), 12740027877540924608);
}

#[test]
fn letters_come_from_the_pinned_stream() {
    let made: Vec<String> = (0..6u64)
        .map(|seed| generate(Pattern::Loop(Box::new(Primitive::Alphabetic), 2, 4), seed))
        .collect();
    assert_eq!(made, vec!["hdwv", "htpl", "wa", "jfds", "cfkf", "qhok"]);
    assert_eq!(
        generate(
            word(Primitive::Or(
                Box::new(word(Primitive::Char('l'))),
                Box::new(word(Primitive::Char('r'))),
            )),
            0
        ),
        "r"
    );
}

#[test]
fn a_drawn_number_picks_the_member() {
    assert_eq!(pick_member("abc", 0), 'a');
    assert_eq!(pick_member("abc", 2), 'c');
    assert_eq!(pick_member("あいう", 1), 'い');
}

#[test]
fn a_given_count_repeats_that_often() {
    let mut rng = Xoshiro256StarStar::seed_from_u64(0);
    let mut out = String::from(">");
    generate_repeated(&Primitive::Char('b'), 3, &mut rng, &mut out);
    assert_eq!(out, ">bbb");
    generate_repeated(&Primitive::Char('c'), 0, &mut rng, &mut out);
    assert_eq!(out, ">bbb");
    generate_repeated(
        &Primitive::Group(Box::new(Pattern::Sequence(vec![
            Box::new(word(Primitive::Char('x'))),
            Box::new(word(Primitive::Alt("y".to_string()))),
        ]))),
        2,
        &mut rng,
        &mut out,
    );
    assert_eq!(out, ">bbbxyxy");
    let mut rng = Xoshiro256StarStar::seed_from_u64(1);
    let mut out = String::new();
    generate_repeated(&Primitive::Digit, 10, &mut rng, &mut out);
    assert_eq!(out, "0076457289");
}

#[test]
fn a_given_choice_takes_that_branch() {
    let a = word(Primitive::Char('a'));
    let b = Pattern::Loop(Box::new(Primitive::Char('b')), 2, 2);
    assert_eq!(pick_branch(true, &a, &b), &a);
    assert_eq!(pick_branch(false, &a, &b), &b);
}

#[test]
fn bounds_out_of_order_draw_nothing() {
    let mut drawn = Xoshiro256StarStar::seed_from_u64(9);
    let mut kept = Xoshiro256StarStar::seed_from_u64(9);
    assert_eq!(draw_count(&mut drawn, 9, 3), 9);
    assert_eq!(draw_count(&mut drawn, 0, 1000), draw_count(&mut kept, 0, 1000));
    for seed in 0..50u64 {
        assert_eq!(
            generate(Pattern::Loop(Box::new(Primitive::Char('x')), 3, 2), seed),
            "xxx"
        );
        let text = generate(Pattern::Loop(Box::new(Primitive::Digit), 4, 0), seed);
        assert_eq!(text.chars().count(), 4);
    }
}

#[test]
fn nothing_is_read_beyond_the_end() {
    let s = chars("a{1}");
    for i in [s.len(), s.len() + 1, usize::MAX] {
        assert_eq!(parse_sequence(&s, i), None);
        assert_eq!(parse_loop(&s, i), None);
        assert_eq!(parse_primitive(&s, i), None);
        assert_eq!(parse_group(&s, i), None);
        assert_eq!(parse_alt(&s, i), None);
        assert_eq!(parse_char(&s, i), None);
        assert_eq!(parse_digit(&s, i), None);
        assert_eq!(parse_alphabetic(&s, i), None);
        assert_eq!(parse_bounds(&s, i), None);
        assert_eq!(parse_number(&s, i), None);
    }
    let ends_in_backslash = chars("a\\");
    assert_eq!(parse_digit(&ends_in_backslash, 1), None);
    assert_eq!(parse_alphabetic(&ends_in_backslash, 1), None);
    assert_eq!(
        parse_char(&ends_in_backslash, 1),
        Some((Primitive::Char('\\'), 2))
    );
}

#[test]
fn a_loop_is_an_atom_with_bounds_behind_it() {
    assert_eq!(
        parse_loop(&chars("a*"), 0),
        Some((Pattern::Loop(Box::new(Primitive::Char('a')), 0, 100), 2))
    );
    assert_eq!(
        parse_loop(&chars("\\w+x"), 0),
        Some((Pattern::Loop(Box::new(Primitive::Alphabetic), 1, 100), 3))
    );
    assert_eq!(
        parse_loop(&chars("(ab){3}"), 0),
        Some((
            Pattern::Loop(
                Box::new(Primitive::Group(Box::new(Pattern::Sequence(vec![
                    Box::new(word(Primitive::Char('a'))),
                    Box::new(word(Primitive::Char('b'))),
                ])))),
                3,
                3
            ),
            7
        ))
    );
    assert_eq!(
        parse_loop(&chars("a{2,2}"), 0),
        Some((Pattern::Loop(Box::new(Primitive::Char('a')), 2, 2), 6))
    );
    for text in ["a", "ab", "\\b", "(a)", "[ab]", "a{", "a{1", "a{1,", "a{1,}", "a{}", "a{,1}", "a,"] {
        assert_eq!(parse_loop(&chars(text), 0), None);
    }
    for text in ["", "{1}", ")", "]*", "\n+"] {
        assert_eq!(parse_loop(&chars(text), 0), None);
    }
    assert_eq!(parse_loop(&chars("a*"), 1), None);
}

#[test]
fn bounds_out_of_order_are_no_loop() {
    for text in ["\\b{13,12}", "a{1,0}", "(a){5,4}x", "[ab]{18446744073709551615,0}"] {
        assert_eq!(parse_loop(&chars(text), 0), None);
    }
    assert_eq!(parse_bounds(&chars("{13,12}"), 0), None);
    assert_eq!(
        parse("a{1,0}"),
        Err(Error::UnTerminatedError("{1,0}".to_string()))
    );
    assert_eq!(
        parse_sequence(&chars("a{1,0}"), 0),
        Some((word(Primitive::Char('a')), 1))
    );
}

#[test]
fn what_follows_a_line_ending_is_not_read() {
    assert_eq!(parse("a\nb"), Ok(word(Primitive::Char('a'))));
    assert_eq!(parse("a\n\n"), Ok(word(Primitive::Char('a'))));
    assert_eq!(parse("a\n\r"), Ok(word(Primitive::Char('a'))));
    assert_eq!(parse("a\r\nb{"), Ok(word(Primitive::Char('a'))));
    assert_eq!(parse("a\r)("), Ok(word(Primitive::Char('a'))));
    assert_eq!(
        parse("\\b{2}\n[unread"),
        Ok(Pattern::Loop(Box::new(Primitive::Digit), 2, 2))
    );
    assert_eq!(parse("\na"), Err(Error::ParseError));
    assert_eq!(
        parse("a{\nb"),
        Err(Error::UnTerminatedError("{\nb".to_string()))
    );
    assert_eq!(
        parse("a)\n"),
        Err(Error::UnTerminatedError(")\n".to_string()))
    );
}

#[test]
fn every_digit_and_letter_is_made() {
    assert_eq!(generate(word(Primitive::Digit), 4), "9");
    assert_eq!(generate(word(Primitive::Alphabetic), 19), "z");
    let mut digits = [false; 10];
    let mut letters = [false; 26];
    for seed in 0..2000u64 {
        let d = generate(word(Primitive::Digit), seed).chars().next().unwrap();
        assert!(('0'..='9').contains(&d));
        digits[d as usize - '0' as usize] = true;
        let l = generate(word(Primitive::Alphabetic), seed).chars().next().unwrap();
        assert!(('a'..='z').contains(&l));
        letters[l as usize - 'a' as usize] = true;
    }
    assert!(digits.iter().all(|seen| *seen));
    assert!(letters.iter().all(|seen| *seen));
}
