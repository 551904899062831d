use xds_geometry::parser::{parse_verbosity, ArgError, Parser};

fn args(list: &[&str]) -> Vec<String> {
    list.iter().map(|s| s.to_string()).collect()
}

#[test]
fn defaults_without_arguments() {
    let p = Parser::parseinput(&args(&["xdstosad"])).unwrap().unwrap();
    assert_eq!(p.xdsascii(), "XDS_ASCII.HKL");
    assert_eq!(p.outfile(), "xds.sad");
    assert_eq!(p.outdir(), "./");
    assert!(p.recursive());
    assert_eq!(p.verbosity(), 1);
}

#[test]
fn empty_argument_list_gives_defaults() {
    let p = Parser::parseinput(&Vec::new()).unwrap().unwrap();
    assert_eq!(p.verbosity(), 1);
}

#[test]
fn verbosity_is_read_from_the_next_argument() {
    let p = Parser::parseinput(&args(&["xdstosad", "-v", "3"])).unwrap().unwrap();
    assert_eq!(p.verbosity(), 3);
}

#[test]
fn last_verbosity_wins() {
    let p = Parser::parseinput(&args(&["x", "-v", "3", "file", "-v", "+007"])).unwrap().unwrap();
    assert_eq!(p.verbosity(), 7);
}

#[test]
fn help_stops_the_scan() {
    assert!(Parser::parseinput(&args(&["x", "-h", "-v"])).unwrap().is_none());
    assert!(Parser::parseinput(&args(&["x", "-v", "2", "-?"])).unwrap().is_none());
}

#[test]
fn verbosity_flag_without_level() {
    assert_eq!(Parser::parseinput(&args(&["x", "-v"])).err(), Some(ArgError::MissingVerbosity));
}

#[test]
fn verbosity_level_must_be_a_small_number() {
    assert_eq!(Parser::parseinput(&args(&["x", "-v", "256"])).err(), Some(ArgError::BadVerbosity));
    assert_eq!(Parser::parseinput(&args(&["x", "-v", "-h"])).err(), Some(ArgError::BadVerbosity));
    assert_eq!(Parser::parseinput(&args(&["x", "-v", "2x"])).err(), Some(ArgError::BadVerbosity));
}

#[test]
fn program_name_is_not_an_option() {
    let p = Parser::parseinput(&args(&["-h"])).unwrap();
    assert!(p.is_some());
}

#[test]
fn verbosity_grammar() {
    assert_eq!(parse_verbosity("0"), Some(0));
    assert_eq!(parse_verbosity("255"), Some(255));
    assert_eq!(parse_verbosity("+12"), Some(12));
    assert_eq!(parse_verbosity("000255"), Some(255));
    assert_eq!(parse_verbosity("256"), None);
    assert_eq!(parse_verbosity("99999999999999999999"), None);
    assert_eq!(parse_verbosity(""), None);
    assert_eq!(parse_verbosity("+"), None);
    assert_eq!(parse_verbosity("-1"), None);
    assert_eq!(parse_verbosity(" 1"), None);
    assert_eq!(parse_verbosity("1 "), None);
    assert_eq!(parse_verbosity("++1"), None);
}
