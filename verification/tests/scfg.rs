use waypoint::scfg::{parse, Directive, Error};

fn d(name: &str, params: &[&str], children: Vec<Directive>, line: usize) -> Directive {
    Directive {
        name: name.to_string(),
        params: params.iter().map(|p| p.to_string()).collect(),
        children,
        line,
    }
}

fn check(s: &str, expected: Result<Vec<Directive>, Error>) {
    assert_eq!(parse(s), expected);
}

#[test]
fn test_parse() {
    check("", Ok(vec![]));

    check("simple", Ok(vec![d("simple", &[], vec![], 0)]));

    check("unclosed {", Err(Error { expected: '}', line: 0, column: 10 }));

    check(
        "
                # comment
                directive
                # comment
            ",
        Ok(vec![d("directive", &[], vec![], 3)]),
    );

    check(r#"escaped \' \""#, Ok(vec![d("escaped", &["'", "\""], vec![], 0)]));

    check(
        r#"train "Shinkansen" {
                model "E5" {
                    max-speed 320km/h
                    weight 453.5t

                    lines-served "Tōhoku" "Hokkaido"
                }

                model "E7" {
                    max-speed 275km/h
                    weight 540t

                    lines-served "Hokuriku" "Jōetsu"
                }
            }"#,
        Ok(vec![d(
            "train",
            &["Shinkansen"],
            vec![
                d(
                    "model",
                    &["E5"],
                    vec![
                        d("max-speed", &["320km/h"], vec![], 2),
                        d("weight", &["453.5t"], vec![], 3),
                        d("lines-served", &["Tōhoku", "Hokkaido"], vec![], 5),
                    ],
                    1,
                ),
                d(
                    "model",
                    &["E7"],
                    vec![
                        d("max-speed", &["275km/h"], vec![], 9),
                        d("weight", &["540t"], vec![], 10),
                        d("lines-served", &["Hokuriku", "Jōetsu"], vec![], 12),
                    ],
                    8,
                ),
            ],
            0,
        )]),
    );
}

#[test]
fn quotes_and_escapes() {
    check(
        "a 'single {quoted} \\ word' \"double 'quoted' \\\" word\" bare\\ word",
        Ok(vec![d(
            "a",
            &["single {quoted} \\ word", "double 'quoted' \" word", "bare word"],
            vec![],
            0,
        )]),
    );
    check("a \"open", Err(Error { expected: '"', line: 0, column: 7 }));
    check("a 'open", Err(Error { expected: '\'', line: 0, column: 7 }));
    // columns count bytes
    check("\u{e4}\u{f6} \"x", Err(Error { expected: '"', line: 0, column: 7 }));
}

#[test]
fn blocks_and_lines() {
    check(
        "a {\n}\nb x {\n  c\n}\n",
        Ok(vec![d("a", &[], vec![], 0), d("b", &["x"], vec![d("c", &[], vec![], 3)], 2)]),
    );
    check("a {\n  b {\n  }\n", Err(Error { expected: '}', line: 3, column: 0 }));
    // a comment counts as a line, and so does the line end behind it
    check("# one\nx", Ok(vec![d("x", &[], vec![], 2)]));
    check("x # not a comment", Ok(vec![d("x", &["#", "not", "a", "comment"], vec![], 0)]));
}

#[test]
fn a_word_that_is_nothing_ends_the_reading() {
    // a closing brace cannot follow the parameters on their line
    check("a }", Err(Error { expected: '\n', line: 0, column: 2 }));
    check("}", Err(Error { expected: '\n', line: 0, column: 0 }));
    check("x {\n y }\n}", Err(Error { expected: '\n', line: 1, column: 3 }));
}
