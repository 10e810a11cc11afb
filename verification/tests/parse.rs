use pirate::{parse, Error, ErrorKind, Match, Matches};

fn read(definitions: &[&str], list: &[&str]) -> Result<Matches, Error> {
    let args: Vec<String> = list.iter().map(|s| String::from(*s)).collect();
    parse(&args, definitions)
}

fn failure(definitions: &[&str], list: &[&str]) -> (ErrorKind, String) {
    match read(definitions, list) {
        Ok(_) => panic!("the arguments were accepted"),
        Err(why) => (why.kind(), String::from(why.offender())),
    }
}

#[test]
fn parse_records_options_and_required_arguments() {
    let m = read(&["a/addend:", "(Required)", ":augend"], &["-a", "2", "3"]).unwrap();
    assert_eq!(m.get("addend").unwrap(), "2");
    assert_eq!(m.get("augend").unwrap(), "3");
    let mut names = m.matches();
    names.sort();
    assert_eq!(names, vec!["addend", "augend"]);
}

#[test]
fn parse_records_a_flag_with_an_empty_value() {
    let m = read(&["b/boop"], &["-b"]).unwrap();
    assert_eq!(m.get("boop").unwrap(), "");
    assert!(m.has_match("boop"));
}

#[test]
fn parse_misses_the_value_of_an_option() {
    assert_eq!(
        failure(&["n:"], &["-n"]),
        (ErrorKind::MissingArgument, String::from("n"))
    );
    assert_eq!(
        failure(&["n/number:"], &["-n"]),
        (ErrorKind::MissingArgument, String::from("n"))
    );
}

#[test]
fn parse_misses_a_required_argument() {
    assert_eq!(
        failure(&[":n"], &[]),
        (ErrorKind::MissingArgument, String::from("n"))
    );
    assert_eq!(
        failure(&[":s/source", ":d/dest"], &["here"]),
        (ErrorKind::MissingArgument, String::from("dest"))
    );
}

#[test]
fn parse_reads_the_first_argument_too() {
    // no name of a program is expected in front
    let m = read(&["v", ":file"], &["-v", "name"]).unwrap();
    assert!(m.has_match("v"));
    assert_eq!(m.get("file").unwrap(), "name");
}

#[test]
fn an_option_that_takes_a_value_need_not_be_given() {
    let m = read(&["n:"], &[]).unwrap();
    assert!(!m.has_match("n"));
    assert_eq!(m.matches().len(), 0);
}

#[test]
fn parse_refuses_an_unknown_option() {
    assert_eq!(
        failure(&["x", "y"], &["-z"]),
        (ErrorKind::InvalidArgument, String::from("z"))
    );
    assert_eq!(
        failure(&[":file"], &["-z", "name"]),
        (ErrorKind::InvalidArgument, String::from("z"))
    );
}

#[test]
fn parse_reads_grouped_flags() {
    let m = read(&["x", "y"], &["-xy"]).unwrap();
    assert_eq!(m.get("x").unwrap(), "");
    assert_eq!(m.get("y").unwrap(), "");
}

#[test]
fn parse_understands_help_without_being_told() {
    let m = read(&[], &["--help"]).unwrap();
    assert!(m.has_match("help"));
    assert_eq!(m.matches(), vec!["help"]);
}

#[test]
fn parse_refuses_a_bare_argument_without_a_taker() {
    assert_eq!(
        failure(&["v"], &["stray"]),
        (ErrorKind::ExtraArgument, String::from("stray"))
    );
    assert_eq!(
        failure(&[":one"], &["1", "-h", "2"]),
        (ErrorKind::ExtraArgument, String::from("2"))
    );
}

#[test]
fn parse_fails_on_the_first_bad_definition_before_it_reads() {
    let error = match read(&["a", ":b:", ":c:"], &["-z"]) {
        Ok(_) => panic!("a contradictory definition was accepted"),
        Err(why) => why,
    };
    assert_eq!(error.kind(), ErrorKind::OptionFormat);
    assert_eq!(error.offender(), ":b:");
}

#[test]
fn parse_gives_grouped_options_their_values_in_turn() {
    let m = read(&["x:", "z", "f/file:"], &["-xzf", "one", "two", "--help"]).unwrap();
    assert_eq!(m.get("x").unwrap(), "one");
    assert_eq!(m.get("z").unwrap(), "");
    assert_eq!(m.get("file").unwrap(), "two");
    assert!(m.has_match("help"));
}

#[test]
fn every_kind_of_error_has_its_message() {
    let invalid = Error::new(ErrorKind::InvalidArgument, String::from("z"));
    assert_eq!(
        invalid.description(),
        "An invalid option was passed to the program: z"
    );
    let missing = Error::new(ErrorKind::MissingArgument, String::from("n"));
    assert_eq!(missing.description(), "A required argument is missing: n");
    let format = Error::new(ErrorKind::OptionFormat, String::from(":x:"));
    assert_eq!(
        format.description(),
        "An option was defined in the wrong format: :x:"
    );
    let extra = Error::new(ErrorKind::ExtraArgument, String::from("stray"));
    assert_eq!(
        extra.description(),
        "An unexpected argument was passed to the program: stray"
    );
    assert_eq!(extra.kind(), ErrorKind::ExtraArgument);
    assert_eq!(extra.offender(), "stray");
    assert_eq!(
        ErrorKind::MissingArgument.description(),
        "A required argument is missing:"
    );
}

#[test]
fn parse_reads_as_matching_does_behind_the_name_of_the_program() {
    let definitions = ["a/addend:", "(Required)", ":augend", "v"];
    let lists: [&[&str]; 6] = [
        &["-a", "2", "3"],
        &["3", "-v"],
        &["-va", "1", "2", "--help"],
        &["-a"],
        &["-z"],
        &["1", "2"],
    ];
    for list in lists {
        let args: Vec<String> = list.iter().map(|s| String::from(*s)).collect();
        let mut env_args = vec![String::from("prog")];
        env_args.extend(args.iter().cloned());
        let mut registry = pirate::vars::vars("prog", &definitions).unwrap();
        let matched = pirate::matches::matches(&mut registry, &env_args);
        match (parse(&args, &definitions), matched) {
            (Ok(a), Ok(b)) => {
                let mut names = a.matches();
                names.sort();
                let mut others = b.matches();
                others.sort();
                assert_eq!(names, others);
                for name in names {
                    assert_eq!(a.get(&name), b.get(&name));
                }
            }
            (Err(a), Err(b)) => {
                assert_eq!(a.kind(), b.kind());
                assert_eq!(a.offender(), b.offender());
            }
            _ => panic!("one reading failed and the other did not"),
        }
    }
}
