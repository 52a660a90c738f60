use repors::manifest::{ManifestError, Remote};
use repors::xml::{same_bytes, string_attr, XmlAttribute, XmlElement};
use repors::{Manifest, Source};

const FIXTURE: &[u8] = b"<?xml version=\"1.0\" encoding=\"UTF-8\"?>
<manifest>
  <remote name=\"yocto\" fetch=\"https://git.yoctoproject.org/git\"/>
  <remote name=\"oe\" fetch=\"https://github.com/openembedded\"/>
  <default remote=\"yocto\" revision=\"main\"/>
  <!-- the layers -->
  <project name=\"poky\" path=\"sources/poky\" revision=\"8d0ba08a\"/>
  <project name=\"meta-openembedded\" remote=\"oe\" path=\"sources/meta-openembedded\" revision=\"4a7bb77f\"/>
  <project name=\"meta-custom\" remote=\"oe\" path=\"sources/poky/meta-custom\" revision=\"17c0c0b\"/>
</manifest>
";

fn source(revision: &str, origin: &str, destination: &str) -> Source {
    Source {
        revision: String::from(revision),
        origin: String::from(origin),
        destination: String::from(destination),
    }
}

fn attribute(key: &str, value: &str) -> Option<XmlAttribute> {
    Some(XmlAttribute { key: key.as_bytes().to_vec(), value: value.as_bytes().to_vec() })
}

fn element(name: &str, attributes: Vec<Option<XmlAttribute>>) -> XmlElement {
    XmlElement { name: name.as_bytes().to_vec(), attributes }
}

#[test]
fn lib_it_works() {
    let manifest = Manifest::from_reader(FIXTURE);
    println!("{manifest:?}");
}

#[test]
fn main_it_works() {
    let manifest = Manifest::from_reader(FIXTURE);
    println!("{manifest:?}");
}

#[test]
fn a_manifest_lists_its_projects_in_order() {
    let manifest = Manifest::from_reader(FIXTURE).unwrap();
    assert_eq!(
        manifest.sources,
        vec![
            source("8d0ba08a", "https://git.yoctoproject.org/git/poky", "sources/poky"),
            source(
                "4a7bb77f",
                "https://github.com/openembedded/meta-openembedded",
                "sources/meta-openembedded"
            ),
            source(
                "17c0c0b",
                "https://github.com/openembedded/meta-custom",
                "sources/poky/meta-custom"
            ),
        ]
    );
    assert_eq!(manifest.default_remote, Some(String::from("yocto")));
    assert_eq!(
        manifest.remotes,
        vec![
            Remote {
                name: String::from("yocto"),
                fetch: String::from("https://git.yoctoproject.org/git")
            },
            Remote {
                name: String::from("oe"),
                fetch: String::from("https://github.com/openembedded")
            },
        ]
    );
}

#[test]
fn an_empty_document_is_an_empty_manifest() {
    let manifest = Manifest::from_reader(b"").unwrap();
    assert_eq!(manifest, Manifest::new());
    assert_eq!(manifest.sources, vec![]);
    assert_eq!(manifest.default_remote, None);
}

#[test]
fn a_document_that_is_not_well_formed_is_refused() {
    let manifest = Manifest::from_reader(b"<manifest><remote name=\"a\" fetch=\"b\"/></other>");
    assert!(matches!(manifest, Err(ManifestError::Xml(_))));
}

#[test]
fn a_project_without_a_remote_is_refused() {
    let manifest = Manifest::from_reader(
        b"<manifest><project name=\"poky\" path=\"poky\" revision=\"1\"/></manifest>",
    );
    assert_eq!(manifest, Err(ManifestError::UnresolvedRemote));
}

#[test]
fn a_project_with_an_undeclared_remote_is_refused() {
    let manifest = Manifest::from_reader(
        b"<manifest><remote name=\"a\" fetch=\"x\"/><project name=\"poky\" remote=\"b\" path=\"poky\" revision=\"1\"/></manifest>",
    );
    assert_eq!(manifest, Err(ManifestError::UnresolvedRemote));
}

#[test]
fn a_remote_declared_after_a_project_comes_too_late() {
    let manifest = Manifest::from_reader(
        b"<manifest><project name=\"poky\" remote=\"a\" path=\"poky\" revision=\"1\"/><remote name=\"a\" fetch=\"x\"/></manifest>",
    );
    assert_eq!(manifest, Err(ManifestError::UnresolvedRemote));
}

#[test]
fn a_project_without_a_name_is_refused() {
    let manifest = Manifest::from_reader(
        b"<manifest><remote name=\"a\" fetch=\"x\"/><project remote=\"a\" path=\"poky\" revision=\"1\"/></manifest>",
    );
    assert_eq!(manifest, Err(ManifestError::UnresolvedRemote));
}

#[test]
fn a_project_without_path_or_revision_is_passed_over() {
    let manifest = Manifest::from_reader(
        b"<manifest><remote name=\"a\" fetch=\"x\"/><project name=\"one\" remote=\"a\" revision=\"1\"/><project name=\"two\" remote=\"a\" path=\"two\"/><project name=\"three\" remote=\"a\" path=\"three\" revision=\"3\"/></manifest>",
    )
    .unwrap();
    assert_eq!(manifest.sources, vec![source("3", "x/three", "three")]);
}

#[test]
fn only_elements_without_content_count() {
    let manifest = Manifest::from_reader(
        b"<manifest><remote name=\"a\" fetch=\"x\"/><project name=\"one\" remote=\"a\" path=\"one\" revision=\"1\"></project><project name=\"two\" remote=\"a\" path=\"two\" revision=\"2\"/></manifest>",
    )
    .unwrap();
    assert_eq!(manifest.sources, vec![source("2", "x/two", "two")]);
}

#[test]
fn a_remote_declared_again_replaces_the_first() {
    let manifest = Manifest::from_reader(
        b"<manifest><remote name=\"a\" fetch=\"x\"/><remote name=\"b\" fetch=\"y\"/><remote name=\"a\" fetch=\"z\"/><project name=\"one\" remote=\"a\" path=\"one\" revision=\"1\"/></manifest>",
    )
    .unwrap();
    assert_eq!(manifest.sources, vec![source("1", "z/one", "one")]);
    assert_eq!(
        manifest.remotes,
        vec![
            Remote { name: String::from("a"), fetch: String::from("z") },
            Remote { name: String::from("b"), fetch: String::from("y") },
        ]
    );
}

#[test]
fn a_default_without_a_remote_unsets_the_default() {
    let manifest = Manifest::from_reader(
        b"<manifest><remote name=\"a\" fetch=\"x\"/><default remote=\"a\"/><default revision=\"main\"/><project name=\"one\" path=\"one\" revision=\"1\"/></manifest>",
    );
    assert_eq!(manifest, Err(ManifestError::UnresolvedRemote));
}

#[test]
fn the_remote_of_a_project_goes_before_the_default() {
    let mut manifest = Manifest {
        default_remote: Some(String::from("a")),
        remotes: vec![
            Remote { name: String::from("a"), fetch: String::from("x") },
            Remote { name: String::from("b"), fetch: String::from("y") },
        ],
        sources: vec![],
    };
    let project = element(
        "project",
        vec![
            attribute("name", "one"),
            attribute("remote", "b"),
            attribute("path", "dest"),
            attribute("revision", "1"),
        ],
    );
    assert_eq!(manifest.record(&project), Ok(()));
    let project =
        element("project", vec![attribute("name", "two"), attribute("path", "else"), attribute("revision", "2")]);
    assert_eq!(manifest.record(&project), Ok(()));
    assert_eq!(manifest.sources, vec![source("1", "y/one", "dest"), source("2", "x/two", "else")]);
}

#[test]
fn a_refused_project_leaves_the_manifest_as_it_was() {
    let mut manifest = Manifest {
        default_remote: None,
        remotes: vec![Remote { name: String::from("a"), fetch: String::from("x") }],
        sources: vec![source("1", "x/one", "one")],
    };
    let project = element("project", vec![attribute("name", "two"), attribute("path", "two")]);
    assert_eq!(manifest.record(&project), Err(ManifestError::UnresolvedRemote));
    assert_eq!(manifest.sources, vec![source("1", "x/one", "one")]);
    assert_eq!(manifest.remotes, vec![Remote { name: String::from("a"), fetch: String::from("x") }]);
}

#[test]
fn other_elements_change_nothing() {
    let mut manifest = Manifest::new();
    let other = element("include", vec![attribute("name", "other.xml")]);
    assert_eq!(manifest.record(&other), Ok(()));
    assert_eq!(manifest, Manifest::new());
}

#[test]
fn the_first_attribute_with_the_key_counts() {
    let subject = element(
        "project",
        vec![None, attribute("path", "a"), attribute("name", "first"), attribute("name", "second")],
    );
    assert_eq!(string_attr(&subject, b"name"), Some(String::from("first")));
    assert_eq!(string_attr(&subject, b"path"), Some(String::from("a")));
    assert_eq!(string_attr(&subject, b"revision"), None);
}

#[test]
fn an_attribute_that_is_not_text_counts_as_missing() {
    let subject = XmlElement {
        name: b"project".to_vec(),
        attributes: vec![
            Some(XmlAttribute { key: b"name".to_vec(), value: vec![0xff, 0xfe] }),
            attribute("name", "later"),
        ],
    };
    assert_eq!(string_attr(&subject, b"name"), None);
}

#[test]
fn an_attribute_keeps_its_text_as_written() {
    let manifest = Manifest::from_reader(
        "<manifest><remote name=\"a\" fetch=\"x&amp;y\"/><project name=\"gr\u{00fc}n\" remote=\"a\" path=\"one\" revision=\"1\"/></manifest>".as_bytes(),
    )
    .unwrap();
    assert_eq!(manifest.sources, vec![source("1", "x&amp;y/gr\u{00fc}n", "one")]);
}

#[test]
fn bytes_are_compared_one_by_one() {
    assert!(same_bytes(b"remote", b"remote"));
    assert!(same_bytes(b"", b""));
    assert!(!same_bytes(b"remote", b"remotes"));
    assert!(!same_bytes(b"remote", b"remove"));
}
