use mgit::config::{Config, ShellConfig};
use mgit::identity::{normalize_author, AliasTable};
use mgit::textmap::TextMap;

fn table() -> AliasTable {
    let mut t = AliasTable::new();
    t.insert(
        "John".to_string(),
        vec!["John Crammer".to_string(), "JC".to_string(), "john.crammer@company.com".to_string()],
    );
    t.insert("Ann".to_string(), vec!["ann@company.com".to_string()]);
    t
}

fn config() -> Config {
    Config {
        repositories: Vec::new(),
        tasks: Vec::new(),
        shells: ShellConfig::default(),
        credentials: TextMap::new(),
        users: table(),
        tags: Vec::new(),
        config_dir: None,
    }
}

fn aliases(t: &AliasTable, i: usize) -> Vec<String> {
    t.entry(i).aliases.clone()
}

#[test]
fn normalization_ignores_letter_case() {
    let t = table();
    assert_eq!(t.normalize("JOHN"), "John");
    assert_eq!(t.normalize("john"), "John");
    assert_eq!(t.normalize("jc"), "John");
    assert_eq!(t.normalize("JOHN.CRAMMER@COMPANY.COM"), "John");
    assert_eq!(t.normalize("ANN@company.com"), "Ann");
}

#[test]
fn unknown_identity_is_returned_unchanged() {
    let t = table();
    assert_eq!(t.normalize("Zed"), "Zed");
    assert_eq!(t.normalize("ZED"), "ZED");
    assert_eq!(AliasTable::new().normalize("Any One"), "Any One");
    assert_eq!(normalize_author("jc", &t), "John");
    assert_eq!(config().normalize_user("John crammer"), "John");
}

#[test]
fn first_matching_entry_wins() {
    let mut t = AliasTable::new();
    t.insert("First".to_string(), vec!["shared".to_string()]);
    t.insert("Second".to_string(), vec!["Shared".to_string()]);
    assert_eq!(t.normalize("SHARED"), "First");
}

#[test]
fn non_ascii_names_are_lowercased() {
    let mut t = AliasTable::new();
    t.insert("Élodie".to_string(), vec!["ÉLODIE DURAND".to_string()]);
    assert_eq!(t.normalize("élodie durand"), "Élodie");
    assert_eq!(t.normalize("ÉLODIE"), "Élodie");
}

#[test]
fn mapped_by_name_alias_or_email() {
    let c = config();
    assert!(c.is_author_mapped("john", "nobody@nowhere"));
    assert!(c.is_author_mapped("jc", ""));
    assert!(c.is_author_mapped("Stranger", "ANN@COMPANY.COM"));
    assert!(!c.is_author_mapped("Stranger", "stranger@nowhere"));
    // an e-mail address is not looked for among canonical names
    assert!(!c.is_author_mapped("Stranger", "Ann"));
}

#[test]
fn new_author_becomes_new_entry() {
    let mut c = config();
    assert!(c.add_unmapped_authors("Zed".to_string(), "zed@x.org".to_string()));
    assert_eq!(c.users.len(), 3);
    assert_eq!(c.users.entry(2).canonical, "Zed");
    assert_eq!(aliases(&c.users, 2), vec!["zed@x.org".to_string()]);
    assert_eq!(c.normalize_user("ZED@X.ORG"), "Zed");
}

#[test]
fn known_name_gains_missing_email() {
    let mut t = table();
    assert!(t.add_unmapped_authors("ANN".to_string(), "ann@home.org".to_string()));
    assert_eq!(t.len(), 2);
    assert_eq!(aliases(&t, 1), vec!["ann@company.com".to_string(), "ann@home.org".to_string()]);
    // a second time nothing changes
    assert!(!t.add_unmapped_authors("ANN".to_string(), "ANN@HOME.ORG".to_string()));
    assert_eq!(aliases(&t, 1).len(), 2);
}

#[test]
fn known_alias_gains_missing_email() {
    let mut t = table();
    assert!(t.add_unmapped_authors("jc".to_string(), "jc@home.org".to_string()));
    assert_eq!(aliases(&t, 0).len(), 4);
    assert_eq!(aliases(&t, 0)[3], "jc@home.org");
}

#[test]
fn known_email_gains_missing_name() {
    let mut t = table();
    assert!(t.add_unmapped_authors("Annie".to_string(), "Ann@Company.com".to_string()));
    assert_eq!(t.len(), 2);
    assert_eq!(aliases(&t, 1), vec!["ann@company.com".to_string(), "Annie".to_string()]);
}

#[test]
fn known_name_with_empty_email_changes_nothing() {
    let mut t = table();
    assert!(!t.add_unmapped_authors("John".to_string(), "".to_string()));
    assert_eq!(aliases(&t, 0).len(), 3);
}

#[test]
fn new_author_with_empty_email_gets_an_empty_alias() {
    let mut t = AliasTable::new();
    assert!(t.add_unmapped_authors("Solo".to_string(), "".to_string()));
    assert_eq!(t.entry(0).canonical, "Solo");
    assert_eq!(aliases(&t, 0), vec!["".to_string()]);
}

#[test]
fn first_claiming_entry_takes_the_author() {
    let mut t = AliasTable::new();
    t.insert("A".to_string(), vec!["mail@x".to_string()]);
    t.insert("B".to_string(), vec!["Bee".to_string()]);
    // entry A knows the e-mail address and comes first: it gains the name
    assert!(t.add_unmapped_authors("bee".to_string(), "MAIL@X".to_string()));
    assert_eq!(aliases(&t, 0), vec!["mail@x".to_string(), "bee".to_string()]);
    assert_eq!(aliases(&t, 1), vec!["Bee".to_string()]);
}

#[test]
fn insert_replaces_aliases_of_the_same_name() {
    let mut t = table();
    t.insert("John".to_string(), vec!["only".to_string()]);
    assert_eq!(t.len(), 2);
    assert_eq!(aliases(&t, 0), vec!["only".to_string()]);
    assert_eq!(t.position_of("Ann"), Some(1));
    assert_eq!(t.position_of("ann"), None);
    t.insert_if_absent("Ann".to_string(), vec![]);
    assert_eq!(aliases(&t, 1).len(), 1);
    t.insert_if_absent("New".to_string(), vec![]);
    assert_eq!(t.len(), 3);
}
