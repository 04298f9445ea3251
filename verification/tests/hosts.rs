use local_stack_focus::hosts::{trim_host_from_guards, update_host_file, PRODUCT};

const PACKAGE: &str = PRODUCT;

#[test]
pub fn test_remove() {
    let host_file = format!("
1.1.1.1 toto
### open guard guard
### close guard guard
1.2.3.4 titi
");

    let str = "
1.1.1.1 toto
1.2.3.4 titi
".to_string();
    assert_eq!(
        trim_host_from_guards(host_file, "### open guard guard\n", "### close guard guard\n"),
        str
    )
}

#[test]
pub fn upload_host_file_host_file() {
    let host_file = format!(
        "127.0.0.1	localhost

# The following lines are desirable for IPv6 capable hosts
::1     ip6-localhost ip6-loopback
fe00::0 ip6-localnet
ff00::0 ip6-mcastprefix
ff02::1 ip6-allnodes
ff02::2 ip6-allrouters
::1 traefik.localhost
::1 custom_app.localhost
### open {} network target
### close {} network target
1.1.1.1 aze
", PACKAGE, PACKAGE);
    let lines: Vec<String> = vec![
        "web".into(),
        "api".into(),
    ];
    let s = update_host_file(host_file, &lines, "network".into(), "target".into(), "1.1.1.1".into());
    assert_eq!(s,
        format!(
"127.0.0.1	localhost

# The following lines are desirable for IPv6 capable hosts
::1     ip6-localhost ip6-loopback
fe00::0 ip6-localnet
ff00::0 ip6-mcastprefix
ff02::1 ip6-allnodes
ff02::2 ip6-allrouters
::1 traefik.localhost
::1 custom_app.localhost
1.1.1.1 aze
### open {} network target
1.1.1.1\tweb
1.1.1.1\tapi
### close {} network target
", PACKAGE, PACKAGE)
    );
}

#[test]
fn rewrite_without_a_block_appends_one() {
    let lines: Vec<String> = vec!["web".to_string(), "api".to_string()];
    let out = update_host_file("1.1.1.1 x\n".to_string(), &lines, "net", "tgt", "2.2.2.2");
    assert_eq!(
        out,
        "1.1.1.1 x\n### open app net tgt\n2.2.2.2\tweb\n2.2.2.2\tapi\n### close app net tgt\n"
    );
}

#[test]
fn rewrite_again_with_a_new_address_replaces_the_block() {
    let lines: Vec<String> = vec!["web".to_string(), "api".to_string()];
    let first = update_host_file("1.1.1.1 x\n".to_string(), &lines, "net", "tgt", "2.2.2.2");
    let second = update_host_file(first, &lines, "net", "tgt", "3.3.3.3");
    assert_eq!(
        second,
        "1.1.1.1 x\n### open app net tgt\n3.3.3.3\tweb\n3.3.3.3\tapi\n### close app net tgt\n"
    );
}

#[test]
fn rewrite_twice_is_rewrite_once() {
    let lines: Vec<String> = vec!["db".to_string()];
    let content = "127.0.0.1 localhost\n\n::1 ip6-localhost\n".to_string();
    let once = update_host_file(content, &lines, "front", "proxy", "10.0.0.5");
    let twice = update_host_file(once.clone(), &lines, "front", "proxy", "10.0.0.5");
    assert_eq!(once, twice);
}

#[test]
fn rewrite_keeps_what_surrounds_the_block() {
    let lines: Vec<String> = vec!["db".to_string()];
    let content =
        "before\n\n### open app n t\n9.9.9.9\told\n### close app n t\n\nafter\n".to_string();
    let out = update_host_file(content, &lines, "n", "t", "1.2.3.4");
    assert_eq!(out, "before\n\n\nafter\n### open app n t\n1.2.3.4\tdb\n### close app n t\n");
}

#[test]
fn rewrite_leaves_the_block_of_another_pair() {
    let lines: Vec<String> = vec!["db".to_string()];
    let content = "a\n### open app n other\n9.9.9.9\tx\n### close app n other\n".to_string();
    let out = update_host_file(content.clone(), &lines, "n", "t", "1.2.3.4");
    assert_eq!(out, format!("{}### open app n t\n1.2.3.4\tdb\n### close app n t\n", content));
}

#[test]
fn rewrite_with_no_names_gives_an_empty_block() {
    let lines: Vec<String> = Vec::new();
    let out = update_host_file(String::new(), &lines, "n", "t", "1.2.3.4");
    assert_eq!(out, "### open app n t\n### close app n t\n");
}

#[test]
fn trim_keeps_everything_after_the_first_closing_guard() {
    let out = trim_host_from_guards("a<b>c>d".to_string(), "<", ">");
    assert_eq!(out, "ac>d");
}

#[test]
fn trim_without_guards_keeps_the_content() {
    let out = trim_host_from_guards("plain\ntext\n".to_string(), "<<", ">>");
    assert_eq!(out, "plain\ntext\n");
}

#[test]
fn trim_counts_characters_not_bytes() {
    let out = trim_host_from_guards("réseau<x>été".to_string(), "<", ">");
    assert_eq!(out, "réseauété");
}
