use farvm::params::{make_params, Params, ParamsError};

fn args(v: &[&str]) -> Vec<String> {
    v.iter().map(|s| s.to_string()).collect()
}

fn parse(v: &[&str]) -> Result<Params, ParamsError> {
    make_params(&args(v))
}

#[test]
fn paths_only() {
    let p = parse(&["a.fa", "b.fa"]).unwrap();
    assert!(p.confs.is_empty());
    assert!(p.switchs.is_empty());
    assert_eq!(p.input_paths, args(&["a.fa", "b.fa"]));
}

#[test]
fn settings_and_switches_before_paths() {
    let p = parse(&["-o=out.fao", "-verbose", "-x=1=2", "main.fa", "-late", "b.fa"]).unwrap();
    assert_eq!(
        p.confs,
        vec![
            (String::from("o"), String::from("out.fao")),
            (String::from("x"), String::from("1=2")),
        ]
    );
    assert_eq!(p.switchs, args(&["VERBOSE"]));
    assert_eq!(p.input_paths, args(&["main.fa", "-late", "b.fa"]));
}

#[test]
fn bare_dash_adds_no_switch() {
    let p = parse(&["-", "x"]).unwrap();
    assert!(p.switchs.is_empty());
    assert_eq!(p.input_paths, args(&["x"]));
}

#[test]
fn setting_without_value_is_refused() {
    assert_eq!(parse(&["-v", "-o=", "-k=", "x"]).unwrap_err(), ParamsError::LackValue(String::from("-o=")));
}

#[test]
fn missing_input_path_is_refused() {
    assert_eq!(parse(&[]).unwrap_err(), ParamsError::LackInputPath);
    assert_eq!(parse(&["-a", "-b=c"]).unwrap_err(), ParamsError::LackInputPath);
}

#[test]
fn switch_names_are_upper_cased() {
    let p = parse(&["-tree", "-Ir", "f"]).unwrap();
    assert_eq!(p.switchs, args(&["TREE", "IR"]));
}

#[test]
fn fresh_params_are_empty() {
    let p = Params::new();
    assert!(p.confs.is_empty() && p.switchs.is_empty() && p.input_paths.is_empty());
}

#[test]
fn repeated_switch_is_kept_once() {
    let p = parse(&["-tree", "-TREE", "-x", "-Tree", "f"]).unwrap();
    assert_eq!(p.switchs, args(&["TREE", "X"]));
}

#[test]
fn later_setting_follows_earlier_one() {
    let p = parse(&["-o=a", "-o=b", "f"]).unwrap();
    assert_eq!(
        p.confs,
        vec![(String::from("o"), String::from("a")), (String::from("o"), String::from("b"))]
    );
    let last: std::collections::HashMap<String, String> = p.confs.into_iter().collect();
    assert_eq!(last.get("o").map(|s| s.as_str()), Some("b"));
}
