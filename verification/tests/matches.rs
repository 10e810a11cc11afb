use pirate::matches::{option_names, Match, Matches};
use pirate::vars::vars;
use pirate::ErrorKind;

fn args(list: &[&str]) -> Vec<String> {
    list.iter().map(|s| String::from(*s)).collect()
}

#[test]
fn test_matches() {
    let opts = vec!["o/opt(An option)", "a(An argument):"];
    let env_args = vec![String::from("test"), String::from("-a"), String::from("Test")];
    let mut vars = vars("Test", &opts).unwrap();
    let matches = match pirate::matches::matches(&mut vars, &env_args) {
        Ok(m) => m,
        Err(why) => panic!("An error occurred: {}", why.description()),
    };

    let argument = matches.get("a").unwrap();
    assert_eq!(*argument, String::from("Test"));
}

#[test]
fn main() {
    let env_args: Vec<String> = vec![
        String::from("test"),
        String::from("-a"),
        String::from("2"),
        String::from("3"),
    ];
    let opts = vec![
        "a/addend(The right side of the addition equation; default=1):",
        "(Required Arguments)",
        ":augend(The left side of an addition equation)",
    ];
    let mut vars = vars("test", &opts).unwrap();

    let matches: Matches = match pirate::matches::matches(&mut vars, &env_args) {
        Ok(m) => m,
        Err(why) => {
            println!("Error: {}", why.description());
            return;
        }
    };

    if matches.has_match("help") {
        return;
    }

    let augend: i32 = matches.get("augend").unwrap().parse::<i32>().unwrap();

    let addend: i32 = match matches.get("addend") {
        Some(a) => a.parse::<i32>().unwrap(),
        None => 1,
    };

    let sum = augend + addend;

    assert_eq!(augend, 3);
    assert_eq!(addend, 2);
    assert_eq!(sum, 5);
}

#[test]
fn grouped_short_options_take_their_values_in_turn() {
    let mut vars = vars("tar", &["x:", "z", "f/file:"]).unwrap();
    let found = pirate::matches::matches(&mut vars, &args(&["tar", "-xzf", "one", "two"])).unwrap();
    assert_eq!(found.get("x").unwrap(), "one");
    assert_eq!(found.get("z").unwrap(), "");
    assert_eq!(found.get("file").unwrap(), "two");
    let mut names = found.matches();
    names.sort();
    assert_eq!(names, vec!["file", "x", "z"]);
}

#[test]
fn a_bare_argument_without_a_taker_is_refused() {
    let mut vars = vars("p", &[":one"]).unwrap();
    let error = match pirate::matches::matches(&mut vars, &args(&["p", "1", "2"])) {
        Ok(_) => panic!("the second bare argument was accepted"),
        Err(why) => why,
    };
    assert_eq!(error.kind(), ErrorKind::ExtraArgument);
    assert_eq!(error.offender(), "2");
}

fn found(definitions: &[&str], list: &[&str]) -> Result<Matches, pirate::Error> {
    let mut registry = vars("prog", definitions).unwrap();
    let mut env_args = vec![String::from("prog")];
    env_args.extend(args(list));
    pirate::matches::matches(&mut registry, &env_args)
}

fn failure(definitions: &[&str], list: &[&str]) -> (ErrorKind, String) {
    match found(definitions, list) {
        Ok(_) => panic!("the arguments were accepted"),
        Err(why) => (why.kind(), String::from(why.offender())),
    }
}

#[test]
fn a_short_name_is_recorded_under_the_long_name() {
    let m = found(&["a/addend:", "(Required)", ":augend"], &["-a", "2", "3"]).unwrap();
    assert_eq!(m.get("addend").unwrap(), "2");
    assert_eq!(m.get("augend").unwrap(), "3");
    assert!(m.get("a").is_none());
    assert!(!m.has_match("help"));
}

#[test]
fn a_flag_is_recorded_with_an_empty_value() {
    let m = found(&["b/boop"], &["-b"]).unwrap();
    assert_eq!(m.get("boop").unwrap(), "");
    assert!(m.has_match("boop"));
    assert_eq!(m.matches(), vec!["boop"]);
}

#[test]
fn a_required_argument_that_is_not_given_is_missed() {
    // without a closing colon `n` would be an option; as a required argument:
    assert_eq!(
        failure(&[":n"], &[]),
        (ErrorKind::MissingArgument, String::from("n"))
    );
    assert_eq!(
        failure(&[":first", ":second"], &["1"]),
        (ErrorKind::MissingArgument, String::from("second"))
    );
}

#[test]
fn an_option_whose_value_is_not_given_is_missed() {
    assert_eq!(
        failure(&["n:"], &["-n"]),
        (ErrorKind::MissingArgument, String::from("n"))
    );
    assert_eq!(
        failure(&["n/number:"], &["--number"]),
        (ErrorKind::MissingArgument, String::from("number"))
    );
    // the second of a group finds nothing left
    assert_eq!(
        failure(&["a:", "b:"], &["-ab", "1"]),
        (ErrorKind::MissingArgument, String::from("b"))
    );
}

#[test]
fn an_unknown_option_is_invalid() {
    assert_eq!(
        failure(&["x"], &["-z"]),
        (ErrorKind::InvalidArgument, String::from("z"))
    );
    assert_eq!(
        failure(&["x"], &["-xz"]),
        (ErrorKind::InvalidArgument, String::from("z"))
    );
    assert_eq!(
        failure(&["x"], &["--zed"]),
        (ErrorKind::InvalidArgument, String::from("zed"))
    );
    // a long name is not looked up character by character
    assert_eq!(
        failure(&["x"], &["--x", "-z"]),
        (ErrorKind::InvalidArgument, String::from("z"))
    );
    assert_eq!(
        failure(&[], &["--"]),
        (ErrorKind::InvalidArgument, String::new())
    );
}

#[test]
fn grouped_flags_are_each_recorded() {
    let m = found(&["x", "y"], &["-xy"]).unwrap();
    assert_eq!(m.get("x").unwrap(), "");
    assert_eq!(m.get("y").unwrap(), "");
    assert_eq!(m.matches(), vec!["x", "y"]);
}

#[test]
fn help_is_understood_without_being_declared() {
    let m = found(&[], &["--help"]).unwrap();
    assert!(m.has_match("help"));
    assert_eq!(m.get("help").unwrap(), "");
    let m = found(&[], &["-h"]).unwrap();
    assert!(m.has_match("help"));
    assert!(!m.has_match("h"));
}

#[test]
fn the_last_value_of_an_option_stays() {
    let m = found(&["o/out:", "v"], &["-o", "a", "-v", "--out", "b", "-vv"]).unwrap();
    assert_eq!(m.get("out").unwrap(), "b");
    assert_eq!(m.get("v").unwrap(), "");
    assert_eq!(m.matches(), vec!["out", "v"]);
}

#[test]
fn required_arguments_are_filled_in_the_order_of_declaration() {
    let definitions = [":first", "v", ":second", "o:"];
    let m = found(&definitions, &["1", "-v", "2"]).unwrap();
    assert_eq!(m.get("first").unwrap(), "1");
    assert_eq!(m.get("second").unwrap(), "2");
    let m = found(&definitions, &["-o", "x", "1", "-v", "2"]).unwrap();
    assert_eq!(m.get("first").unwrap(), "1");
    assert_eq!(m.get("second").unwrap(), "2");
    assert_eq!(m.get("o").unwrap(), "x");
}

#[test]
fn a_value_may_look_like_an_option() {
    let m = found(&["o:", "v"], &["-o", "-v"]).unwrap();
    assert_eq!(m.get("o").unwrap(), "-v");
    assert!(!m.has_match("v"));
}

#[test]
fn a_lone_dash_names_nothing_and_an_empty_argument_is_bare() {
    let m = found(&["v"], &["-"]).unwrap();
    assert_eq!(m.matches().len(), 0);
    let m = found(&[":one"], &[""]).unwrap();
    assert_eq!(m.get("one").unwrap(), "");
}

#[test]
fn only_the_name_of_the_program_is_passed_over() {
    let mut registry = vars("prog", &[":one"]).unwrap();
    // nothing at all: nothing to pass over, and the argument is missed
    let error = match pirate::matches::matches(&mut registry, &[]) {
        Ok(_) => panic!("the arguments were accepted"),
        Err(why) => why,
    };
    assert_eq!(error.kind(), ErrorKind::MissingArgument);
    assert_eq!(error.offender(), "one");

    let mut registry = vars("prog", &["v"]).unwrap();
    let m = pirate::matches::matches(&mut registry, &args(&["-z", "-v"])).unwrap();
    assert_eq!(m.matches(), vec!["v"]);
}

#[test]
fn matching_drains_the_line_until_it_is_reset() {
    let mut registry = vars("prog", &[":one", ":two"]).unwrap();
    let env_args = args(&["prog", "1", "2"]);
    assert!(pirate::matches::matches(&mut registry, &env_args).is_ok());
    assert_eq!(registry.arg_len(), 0);

    // a second reading finds no taker for the bare arguments
    let error = match pirate::matches::matches(&mut registry, &env_args) {
        Ok(_) => panic!("the arguments were accepted"),
        Err(why) => why,
    };
    assert_eq!(error.kind(), ErrorKind::ExtraArgument);
    assert_eq!(error.offender(), "1");

    registry.reset();
    let m = pirate::matches::matches(&mut registry, &env_args).unwrap();
    assert_eq!(m.get("two").unwrap(), "2");
}

#[test]
fn a_failed_reading_leaves_the_line_where_it_stopped() {
    let mut registry = vars("prog", &[":one", ":two", ":three"]).unwrap();
    assert!(pirate::matches::matches(&mut registry, &args(&["prog", "1", "-z"])).is_err());
    assert_eq!(registry.arg_len(), 2);
    // the argument that is reported as missing leaves the line too
    assert!(pirate::matches::matches(&mut registry, &args(&["prog"])).is_err());
    assert_eq!(registry.arg_len(), 1);
}

#[test]
fn the_hash_sign_is_an_ordinary_character() {
    let definitions = [
        "a/addend#The right side of the addition equation; default=1:",
        "#Required Arguments",
        ":augend#The left side of an addition equation",
    ];
    let m = found(&definitions, &["-a", "2", "3"]).unwrap();
    assert_eq!(
        m.get("addend#The right side of the addition equation; default=1")
            .unwrap(),
        "2"
    );
    assert_eq!(
        m.get("augend#The left side of an addition equation").unwrap(),
        "3"
    );
    assert!(m.get("augend").is_none());
}

#[test]
fn matches_can_be_built_by_hand() {
    let mut m = Matches::new();
    assert!(!m.has_match("a"));
    assert_eq!(m.matches().len(), 0);
    m.insert(String::from("a"), String::from("1"));
    m.insert(String::from("b"), String::from("2"));
    m.insert(String::from("a"), String::from("3"));
    assert_eq!(m.get("a").unwrap(), "3");
    assert_eq!(m.get("b").unwrap(), "2");
    assert!(m.get("c").is_none());
    assert_eq!(m.matches(), vec!["a", "b"]);
}

#[test]
fn option_names_are_read_from_left_to_right() {
    assert_eq!(option_names("--help"), vec!["help"]);
    assert_eq!(option_names("--"), vec![""]);
    assert_eq!(option_names("---x"), vec!["-x"]);
    assert_eq!(option_names("-xzf"), vec!["x", "z", "f"]);
    assert_eq!(option_names("-é"), vec!["é"]);
    assert_eq!(option_names("-").len(), 0);
    assert_eq!(option_names("").len(), 0);
}
