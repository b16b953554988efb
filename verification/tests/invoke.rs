use mcfmt::invoke::{command_args, scratch_file_name};
use mcfmt::settings::Lang;

#[test]
fn title_names_the_scratch_file() {
    let lang = Lang::new("black", vec!["py"], None, Some("py"));
    assert_eq!(scratch_file_name(&lang, Some("app.py".to_string())), "app.py");
    assert_eq!(scratch_file_name(&lang, Some("".to_string())), "");
}

#[test]
fn extension_names_the_scratch_file() {
    let lang = Lang::new("black", vec!["py"], None, Some("py"));
    assert_eq!(scratch_file_name(&lang, None), "tmp_code.py");
    let lang = Lang::new("black", vec!["py"], None, Some(".py"));
    assert_eq!(scratch_file_name(&lang, None), "tmp_code.py");
}

#[test]
fn fallback_name_of_the_scratch_file() {
    let lang = Lang::new("fmt", vec!["x"], None, None);
    assert_eq!(scratch_file_name(&lang, None), "tmp_code");
}

#[test]
fn path_comes_first_among_the_arguments() {
    let lang = Lang::new("prettier", vec!["js"], Some(vec!["--write", "--tab-width", "4"]), None);
    assert_eq!(
        command_args(&lang, &"/tmp/x/tmp_code.js".to_string()),
        vec!["/tmp/x/tmp_code.js", "--write", "--tab-width", "4"]
    );
}

#[test]
fn path_alone_without_extra_arguments() {
    let lang = Lang::new("rustfmt", vec!["rs"], None, None);
    assert_eq!(command_args(&lang, &"a.rs".to_string()), vec!["a.rs"]);
    let lang = Lang::new("rustfmt", vec!["rs"], Some(vec![]), None);
    assert_eq!(command_args(&lang, &"a.rs".to_string()), vec!["a.rs"]);
}
