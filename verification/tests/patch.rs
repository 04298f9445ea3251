use local_stack_focus::container::{Container, RawContainer};
use local_stack_focus::dictionary::TextMap;
use local_stack_focus::error::{DockerError, PatchError};
use local_stack_focus::patch::{FirstEntry, HostsPatch};

fn container(id: &str, name: Option<&str>) -> Container {
    let raw = RawContainer {
        id: id.to_string(),
        name: name.map(|n| n.to_string()),
        networks: TextMap::from_pairs(vec![("front".to_string(), "10.0.0.2".to_string())]),
        labels: TextMap::new(),
    };
    Container::derive(&raw, "front", "focus")
}

fn patch(id: &str, name: Option<&str>) -> HostsPatch {
    HostsPatch {
        container: container(id, name),
        dependencies: vec!["web".to_string(), "api".to_string()],
        network: "net".to_string(),
        target: "tgt".to_string(),
        host: "2.2.2.2".to_string(),
    }
}

fn archive(entries: &[(&str, &[u8])]) -> Vec<u8> {
    let mut builder = tar::Builder::new(Vec::new());
    for (path, data) in entries {
        let mut header = tar::Header::new_gnu();
        header.set_size(data.len() as u64);
        header.set_mode(0o644);
        builder.append_data(&mut header, path, *data).unwrap();
    }
    builder.into_inner().unwrap()
}

#[test]
fn a_container_without_a_name_cannot_be_fetched_from() {
    match patch("abc", None).source_name() {
        Err(DockerError::NoName(id)) => assert_eq!(id, "abc"),
        other => panic!("unexpected outcome {:?}", other),
    }
    assert_eq!(patch("abc", Some("web-1")).source_name().unwrap(), "web-1");
}

#[test]
fn the_first_entry_of_the_archive_is_rewritten() {
    let bytes = archive(&[("hosts", b"1.1.1.1 x\n"), ("other", b"9.9.9.9 y\n")]);
    let out = patch("abc", Some("web-1")).rewrite_archive(&bytes).unwrap();
    assert_eq!(
        out,
        "1.1.1.1 x\n### open app net tgt\n2.2.2.2\tweb\n2.2.2.2\tapi\n### close app net tgt\n"
    );
}

#[test]
fn written_out_tabs_and_line_feeds_are_turned_back() {
    let bytes = archive(&[("hosts", b"127.0.0.1\\tlocalhost\\n::1\\tlocalhost\n")]);
    let out = patch("abc", Some("web-1")).rewrite_archive(&bytes).unwrap();
    assert_eq!(
        out,
        "127.0.0.1\tlocalhost\n::1\tlocalhost\n### open app net tgt\n2.2.2.2\tweb\n2.2.2.2\tapi\n### close app net tgt\n"
    );
}

#[test]
fn an_archive_without_an_entry_gives_no_hosts_file() {
    let empty = archive(&[]);
    match patch("abc", Some("web-1")).rewrite_archive(&empty) {
        Err(PatchError::Docker(DockerError::NoHost(id))) => assert_eq!(id, "abc"),
        other => panic!("unexpected outcome {:?}", other),
    }
    match patch("abc", Some("web-1")).rewrite_archive(&[]) {
        Err(PatchError::Docker(DockerError::NoHost(id))) => assert_eq!(id, "abc"),
        other => panic!("unexpected outcome {:?}", other),
    }
}

#[test]
fn an_entry_that_cannot_be_read_is_a_transport_error() {
    let garbage = vec![0xffu8; 512];
    assert!(matches!(
        patch("abc", Some("web-1")).rewrite_archive(&garbage),
        Err(PatchError::Transport(_))
    ));
    let not_text = archive(&[("hosts", &[0xff, 0xfe, 0x00][..])]);
    assert!(matches!(
        patch("abc", Some("web-1")).rewrite_archive(&not_text),
        Err(PatchError::Transport(_))
    ));
}

#[test]
fn rewrite_entry_goes_by_what_was_read() {
    let request = patch("abc", Some("web-1"));
    assert_eq!(
        request.rewrite_entry(FirstEntry::Text("a\\tb\n".to_string())).unwrap(),
        "a\tb\n### open app net tgt\n2.2.2.2\tweb\n2.2.2.2\tapi\n### close app net tgt\n"
    );
    assert!(matches!(
        request.rewrite_entry(FirstEntry::Missing),
        Err(PatchError::Docker(DockerError::NoHost(id))) if id == "abc"
    ));
    assert!(matches!(
        request.rewrite_entry(FirstEntry::Unlisted("not at the start".to_string())),
        Err(PatchError::Docker(DockerError::NoHost(id))) if id == "abc"
    ));
    assert!(matches!(
        request.rewrite_entry(FirstEntry::Damaged("bad header".to_string())),
        Err(PatchError::Transport(reason)) if reason == "bad header"
    ));
    assert!(matches!(
        request.rewrite_entry(FirstEntry::Unread("not text".to_string())),
        Err(PatchError::Transport(reason)) if reason == "not text"
    ));
}

#[test]
fn the_overwrite_command_runs_as_root_in_the_container() {
    let arguments = patch("abc", Some("web-1")).overwrite_command("1.1.1.1 x\n");
    assert_eq!(
        arguments,
        vec!["exec", "-u", "root", "abc", "sh", "-c", "echo \"1.1.1.1 x\n\" > /etc/hosts"]
    );
}

#[test]
fn error_messages() {
    assert_eq!(
        DockerError::NoName("abc".to_string()).to_string(),
        "container abc has no name, cannot fetch from it"
    );
    assert_eq!(
        DockerError::NoHost("abc".to_string()).to_string(),
        "container abc has no /etc/hosts file"
    );
    assert_eq!(
        PatchError::Docker(DockerError::NoHost("abc".to_string())).to_string(),
        "container abc has no /etc/hosts file"
    );
    assert_eq!(PatchError::Transport("eof".to_string()).to_string(), "eof");
}
