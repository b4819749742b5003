use chromist::generator::{check_pdl_count, subenum_name, Generator, GeneratorError};
use chromist::pdl::ParseError;

#[test]
fn subenum_names_join_parent_and_camel_field() {
    assert_eq!(subenum_name("ConsoleMessage", "level"), "ConsoleMessageLevel");
    assert_eq!(subenum_name("Cookie", "same_site"), "CookieSameSite");
}

#[test]
fn generator_settings_and_errors() {
    let g = Generator::default();
    assert!(g.out_dir.is_none());
    let g = g.out_dir(std::path::PathBuf::from("/tmp/out"));
    assert_eq!(g.out_dir.unwrap(), std::path::PathBuf::from("/tmp/out"));
    let e = GeneratorError::Parse {
        path: "x.pdl".into(),
        source: ParseError::Syntax { line: 2, message: "bad".into() },
    };
    assert_eq!(e.to_display_string(), "parse error in x.pdl: line 2: bad");
    let e: GeneratorError = String::from("no PDL files provided").into();
    assert_eq!(e.to_display_string(), "no PDL files provided");
}

#[test]
fn a_compile_run_needs_a_pdl_file() {
    match check_pdl_count(0) {
        Err(GeneratorError::Other(m)) => assert_eq!(m, "no PDL files provided"),
        _ => panic!("expected an error"),
    }
    assert!(check_pdl_count(2).is_ok());
}
