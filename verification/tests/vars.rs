use mgit::textmap::TextEntry;
use mgit::vars::{VarContext, VarError};

fn context(defines: Vec<String>) -> Result<VarContext, VarError> {
    let environment = vec![TextEntry { key: "PATH".to_string(), value: "/usr/bin".to_string() }];
    VarContext::new(
        &environment,
        &Some("/work/here".to_string()),
        "/project",
        &Some("/home/user".to_string()),
        &defines,
    )
}

#[test]
fn test_basic_substitution() {
    let ctx = context(vec!["VAR1=value1".to_string(), "VAR2=value2".to_string()]).unwrap();

    assert_eq!(ctx.substitute("$(VAR1)").unwrap(), "value1");
    assert_eq!(ctx.substitute("${VAR2}").unwrap(), "value2");
    assert_eq!(ctx.substitute("prefix_$(VAR1)_suffix").unwrap(), "prefix_value1_suffix");
}

#[test]
fn test_predefined_vars() {
    let ctx = context(vec![]).unwrap();

    let result = ctx.substitute("$(PROJECT_DIR)").unwrap();
    assert!(result.contains("project"));

    let result = ctx.substitute("$(CWD)").unwrap();
    assert!(!result.is_empty());
}

#[test]
fn test_tilde_expansion() {
    let ctx = context(vec![]).unwrap();

    let result = ctx.substitute("~/Documents").unwrap();
    assert!(!result.starts_with("~"));
    assert!(result.contains("Documents"));
}

#[test]
fn test_mixed_syntax() {
    let ctx = context(vec!["A=hello".to_string(), "B=world".to_string()]).unwrap();

    assert_eq!(ctx.substitute("$(A) ${B}").unwrap(), "hello world");
}

#[test]
fn test_undefined_variable() {
    let ctx = context(vec![]).unwrap();

    let result = ctx.substitute("$(UNDEFINED_VAR)");
    assert!(result.is_err());
    assert!(result.unwrap_err().message().contains("Undefined variable"));
}

#[test]
fn test_unclosed_variable() {
    let ctx = context(vec![]).unwrap();

    let result = ctx.substitute("$(UNCLOSED");
    assert!(result.is_err());
    assert!(result.unwrap_err().message().contains("Unclosed variable"));
}

#[test]
fn test_invalid_define_format() {
    let result = context(vec!["INVALID".to_string()]);

    assert!(result.is_err());
    assert!(result.unwrap_err().message().contains("Invalid variable definition"));
}

#[test]
fn test_env_vars() {
    let environment =
        vec![TextEntry { key: "TEST_VAR_12345".to_string(), value: "test_value".to_string() }];
    let ctx = VarContext::new(&environment, &None, "/project", &None, &vec![]).unwrap();
    assert_eq!(ctx.substitute("$(TEST_VAR_12345)").unwrap(), "test_value");
}

#[test]
fn exact_error_messages() {
    let ctx = context(vec![]).unwrap();
    assert_eq!(
        ctx.substitute("a ${NOPE} b").unwrap_err().message(),
        "Undefined variable: ${NOPE}"
    );
    assert_eq!(
        ctx.substitute("x $(OPEN").unwrap_err().message(),
        "Unclosed variable reference: $("
    );
    assert_eq!(
        context(vec!["NOEQ".to_string()]).unwrap_err().message(),
        "Invalid variable definition 'NOEQ'. Expected format: VAR=VALUE"
    );
}

#[test]
fn definition_splits_at_first_equals_sign() {
    let ctx = context(vec!["K=a=b".to_string(), "E=".to_string()]).unwrap();
    assert_eq!(ctx.get("K"), Some(&"a=b".to_string()));
    assert_eq!(ctx.get("E"), Some(&"".to_string()));
    assert_eq!(ctx.get("MISSING"), None);
}

#[test]
fn later_definitions_take_the_place_of_earlier_ones() {
    let ctx = context(vec!["HOME=/other".to_string(), "PATH=/bin".to_string()]).unwrap();
    assert_eq!(ctx.get("HOME"), Some(&"/other".to_string()));
    assert_eq!(ctx.get("PATH"), Some(&"/bin".to_string()));
    assert_eq!(ctx.get("PROJECT_DIR"), Some(&"/project".to_string()));
    assert_eq!(ctx.get("CWD"), Some(&"/work/here".to_string()));
}

#[test]
fn tilde_alone_and_tilde_inside() {
    let ctx = context(vec![]).unwrap();
    assert_eq!(ctx.substitute("~").unwrap(), "/home/user");
    assert_eq!(ctx.substitute("~/a/b").unwrap(), "/home/user/a/b");
    assert_eq!(ctx.substitute("a/~/b").unwrap(), "a/~/b");
    assert_eq!(ctx.substitute("~user").unwrap(), "~user");
}

#[test]
fn tilde_stays_without_home() {
    let ctx = VarContext::new(&vec![], &None, "/project", &None, &vec![]).unwrap();
    assert_eq!(ctx.substitute("~/x").unwrap(), "~/x");
}

#[test]
fn values_are_expanded_in_the_next_round() {
    let ctx = context(vec!["A=$(B)".to_string(), "B=${C}".to_string(), "C=end".to_string()])
        .unwrap();
    assert_eq!(ctx.substitute("$(A)").unwrap(), "end");
    assert_eq!(ctx.substitute("no variables").unwrap(), "no variables");
    assert_eq!(ctx.substitute("").unwrap(), "");
}

#[test]
fn expansion_stops_after_ten_rounds() {
    let ctx = context(vec!["L=x$(L)".to_string()]).unwrap();
    assert_eq!(ctx.substitute("$(L)").unwrap(), "xxxxxxxxxx$(L)");
}

#[test]
fn non_ascii_text_is_kept() {
    let ctx = context(vec!["N=définition".to_string()]).unwrap();
    assert_eq!(ctx.substitute("é$(N)→${N}ü").unwrap(), "édéfinition→définitionü");
}
