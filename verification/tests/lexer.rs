use pirate::lexer::Token;
use pirate::{analyze, collect, help, ErrorKind};

#[test]
fn analyze_reads_names_description_and_flags() {
    let t = analyze("o/option(An option with an argument):").unwrap();
    assert_eq!(t.short_name, "o");
    assert_eq!(t.long_name, "option");
    assert_eq!(t.description, "An option with an argument");
    assert!(!t.is_arg);
    assert!(t.has_arg);
    assert!(!t.is_group);

    let a = analyze(":a/arg(An argument)").unwrap();
    assert!(a.is_arg && !a.has_arg && !a.is_group);
    assert_eq!(a.name(), "arg");

    let g = analyze("(This is a group)").unwrap();
    assert!(g.is_group);
    assert_eq!(g.description, "This is a group");
    assert_eq!(g.name(), "");
}

#[test]
fn analyze_refuses_contradictory_definitions() {
    for definition in [":w/wrong(Wrong format):", ":x:", ":", ":(Heading)", "(Heading):"] {
        let error = analyze(definition).unwrap_err();
        assert_eq!(error.kind(), ErrorKind::OptionFormat);
        assert_eq!(error.offender(), definition);
    }
}

#[test]
fn analyze_twice_gives_the_same_token() {
    for definition in ["h/help(Display the program usage)", ":a/arg", "o:", "(Group)", ""] {
        assert_eq!(analyze(definition).unwrap(), analyze(definition).unwrap());
    }
}

#[test]
fn a_new_token_is_blank() {
    let t = Token::new();
    assert_eq!(t.short_name, "");
    assert_eq!(t.long_name, "");
    assert_eq!(t.description, "");
    assert!(!t.is_arg);
    assert!(!t.has_arg);
    assert!(t.is_group);
    assert_eq!(t, analyze("").unwrap());
}

#[test]
fn the_long_name_is_preferred() {
    assert_eq!(analyze("o").unwrap().name(), "o");
    assert_eq!(analyze("o/out").unwrap().name(), "out");
    assert_eq!(analyze("(Output)").unwrap().name(), "");
}

#[test]
fn fmt_with_padding_appends_spaces() {
    let t = analyze("o/out(Where to write)").unwrap();
    assert_eq!(t.fmt_with_padding(0), "-o, --out");
    assert_eq!(t.fmt_with_padding(3), "-o, --out   ");
    assert_eq!(t.to_string(), "-o, --out    Where to write");
    assert_eq!(analyze("(Group)").unwrap().fmt_with_padding(1), "-, -- ");
}

#[test]
fn collect_keeps_the_order_of_the_definitions() {
    let tokens = collect(&["a/addend:", "(Required)", ":augend"]).unwrap();
    assert_eq!(tokens.len(), 3);
    assert_eq!(tokens[0].name(), "addend");
    assert!(tokens[0].has_arg);
    assert!(tokens[1].is_group);
    assert_eq!(tokens[2].name(), "augend");
    assert!(tokens[2].is_arg);
    assert_eq!(collect(&[]).unwrap().len(), 0);
}

#[test]
fn collect_stops_at_the_first_failure() {
    let error = collect(&["a", ":first:", ":second:"]).unwrap_err();
    assert_eq!(error.kind(), ErrorKind::OptionFormat);
    assert_eq!(error.offender(), ":first:");
}

#[test]
fn help_lists_the_heading_and_each_token() {
    let tokens = collect(&["o/out(Where to write)", "(Group)"]).unwrap();
    let lines = help(&tokens, "prog", "does things");
    assert_eq!(
        lines,
        vec![
            "prog - does things",
            "-o, --out    Where to write",
            "-, --    Group",
        ]
    );
    assert_eq!(help(&Vec::new(), "p", ""), vec!["p - "]);
}
