use pirate::opts::Opts;
use pirate::vars::vars;
use pirate::ErrorKind;

#[test]
fn vars_finds_an_option_by_either_name() {
    let v = vars("prog", &["a/addend:", "(Required)", ":augend"]).unwrap();
    assert_eq!(v.program_name(), "prog");
    assert!(v.contains_opt("a"));
    assert!(v.contains_opt("addend"));
    assert_eq!(v.get_opt("a").unwrap(), v.get_opt("addend").unwrap());
    assert_eq!(v.get_opt("a").unwrap().name(), "addend");
    assert!(v.get_opt("a").unwrap().has_arg);
    // a required argument and a group header are found under no name
    assert!(!v.contains_opt("augend"));
    assert!(v.get_opt("augend").is_none());
    assert!(!v.contains_opt("Required"));
    assert!(!v.contains_opt(""));
    assert!(!v.contains_opt("z"));
}

#[test]
fn vars_always_has_help_after_the_declared_options() {
    let v = vars("prog", &[]).unwrap();
    assert!(v.contains_opt("h"));
    assert!(v.contains_opt("help"));
    assert_eq!(v.tokens().len(), 1);
    let help = v.get_opt("help").unwrap();
    assert_eq!(help.short_name, "h");
    assert_eq!(help.long_name, "help");
    assert_eq!(help.description, "Display usage information");
    assert!(!help.has_arg && !help.is_arg && !help.is_group);

    let v = vars("prog", &["x", "y"]).unwrap();
    let names: Vec<String> = v.tokens().iter().map(|t| t.name()).collect();
    assert_eq!(names, vec!["x", "y", "help"]);
}

#[test]
fn the_implicit_help_wins_over_a_declared_one() {
    let v = vars("prog", &["h/host:", "/help(Mine)"]).unwrap();
    assert_eq!(v.get_opt("h").unwrap().long_name, "help");
    assert!(!v.get_opt("h").unwrap().has_arg);
    assert_eq!(v.get_opt("help").unwrap().description, "Display usage information");
    // the long name of the shadowed option still finds it
    assert_eq!(v.get_opt("host").unwrap().short_name, "h");
}

#[test]
fn the_later_of_two_options_with_one_name_is_found() {
    let v = vars("prog", &["x/first", "x/second:"]).unwrap();
    assert_eq!(v.get_opt("x").unwrap().long_name, "second");
    assert_eq!(v.get_opt("first").unwrap().long_name, "first");
}

#[test]
fn vars_hands_out_required_arguments_in_order() {
    let mut v = vars("prog", &[":one", "o", ":two/second", "(Group)", ":three"]).unwrap();
    assert_eq!(v.arg_len(), 3);
    assert_eq!(v.get_arg().unwrap().name(), "one");
    assert_eq!(v.arg_len(), 2);
    assert_eq!(v.get_arg().unwrap().name(), "second");
    assert_eq!(v.get_arg().unwrap().name(), "three");
    assert_eq!(v.arg_len(), 0);
    assert!(v.get_arg().is_none());
    assert_eq!(v.arg_len(), 0);

    v.reset();
    assert_eq!(v.arg_len(), 3);
    assert_eq!(v.get_arg().unwrap().name(), "one");
}

#[test]
fn vars_fails_with_the_first_bad_definition() {
    let error = match vars("prog", &["a", ":b:", "(Group):"]) {
        Ok(_) => panic!("a contradictory definition was accepted"),
        Err(why) => why,
    };
    assert_eq!(error.kind(), ErrorKind::OptionFormat);
    assert_eq!(error.offender(), ":b:");
    assert_eq!(
        error.description(),
        "An option was defined in the wrong format: :b:"
    );
}

#[test]
fn vars_pads_every_label_to_the_widest() {
    // widths: "-o, --output" 12, "-v" 2, header 0, "--input" 7, "-h, --help" 10
    let v = vars("prog", &["o/output:", "v", "(Group)", ":/input"]).unwrap();
    let paddings: Vec<usize> = v.tokens().iter().map(|t| t.padding).collect();
    assert_eq!(paddings, vec![0, 10, 12, 5, 2]);
    assert_eq!(v.tokens()[1].to_string(), "  -v, --            ");
    assert_eq!(
        v.tokens()[4].to_string(),
        "  -h, --help    Display usage information"
    );
}

#[test]
fn a_header_is_not_counted_among_the_widths() {
    let v = vars("prog", &["(A very long heading indeed)"]).unwrap();
    let paddings: Vec<usize> = v.tokens().iter().map(|t| t.padding).collect();
    assert_eq!(paddings, vec![10, 0]);
}

#[test]
fn opts_knows_which_options_take_a_value() {
    let o = Opts::new(&["a/addend:", "(Required)", ":augend", "v"]).unwrap();
    assert_eq!(o.get_opt(&String::from("a")), Some(&true));
    assert_eq!(o.get_opt(&String::from("addend")), Some(&true));
    assert_eq!(o.get_opt(&String::from("v")), Some(&false));
    assert_eq!(o.get_opt(&String::from("h")), Some(&false));
    assert_eq!(o.get_opt(&String::from("help")), Some(&false));
    assert_eq!(o.get_opt(&String::from("augend")), None);
    assert_eq!(o.get_opt(&String::from("z")), None);
    assert!(o.contains_opt(&String::from("addend")));
    assert!(!o.contains_opt(&String::from("augend")));
    assert_eq!(o.get_name(&String::from("a")), Some("addend"));
    assert_eq!(o.get_name(&String::from("v")), Some("v"));
    assert_eq!(o.get_name(&String::from("h")), Some("help"));
    assert_eq!(o.get_name(&String::from("z")), None);
}

#[test]
fn opts_hands_out_required_arguments_in_order() {
    let mut o = Opts::new(&[":one", "o", ":two/second"]).unwrap();
    assert_eq!(o.arg_len(), 2);
    assert_eq!(o.get_arg(), Some(String::from("one")));
    assert_eq!(o.arg_len(), 1);
    assert_eq!(o.get_arg(), Some(String::from("second")));
    assert_eq!(o.arg_len(), 0);
    assert_eq!(o.get_arg(), None);
    // the options are still there
    assert!(o.contains_opt(&String::from("o")));
}

#[test]
fn opts_fails_with_the_first_bad_definition() {
    let error = match Opts::new(&["(Group):", ":b:"]) {
        Ok(_) => panic!("a contradictory definition was accepted"),
        Err(why) => why,
    };
    assert_eq!(error.kind(), ErrorKind::OptionFormat);
    assert_eq!(error.offender(), "(Group):");
}
