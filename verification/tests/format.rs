use buildxyz::attr::FileType;
use buildxyz::cache::{PathOrigin, StorePath};
use buildxyz::document::{Field, Toml};
use buildxyz::format::{
    db_to_human_toml, filetype_name, locate_resolution_db, parse_filetype_kind,
    read_resolution_db, try_read_resolution_db, write_resolution_db, ParseResolutionError,
    ReadError,
};
use buildxyz::resolution::{Decision, ProvideData, Resolution, ResolutionDB};

const PROVIDE: &str = r#"
["bin/hello"]
resolution = "constant"
decision = "provide"
kind = "symlink"
file_entry_name = "/bin/hello"

["bin/hello".store_path]
store_dir = "/nix/store"
hash = "abc"
name = "hello-2.12"

["bin/hello".store_path.origin]
attr = "hello"
output = "out"
toplevel = true
"#;

const IGNORE: &str = r#"
["include/missing.h"]
resolution = "constant"
decision = "ignore"
"#;

fn text(key: &str, value: &str) -> Field {
    Field { key: key.to_string(), value: Toml::Text(value.to_string()) }
}

fn table(key: &str, fields: Vec<Field>) -> Field {
    Field { key: key.to_string(), value: Toml::Table(fields) }
}

fn origin_fields() -> Vec<Field> {
    vec![
        text("attr", "hello"),
        text("output", "out"),
        Field { key: "toplevel".to_string(), value: Toml::Boolean(true) },
    ]
}

fn store_path_fields() -> Vec<Field> {
    vec![
        text("store_dir", "/nix/store"),
        text("hash", "abc"),
        text("name", "hello-2.12"),
        table("origin", origin_fields()),
    ]
}

fn provide_fields() -> Vec<Field> {
    vec![
        text("decision", "provide"),
        text("kind", "symlink"),
        text("file_entry_name", "/bin/hello"),
        table("store_path", store_path_fields()),
    ]
}

fn without(fields: Vec<Field>, key: &str) -> Vec<Field> {
    fields.into_iter().filter(|f| f.key != key).collect()
}

fn with(fields: Vec<Field>, field: Field) -> Vec<Field> {
    let mut fields = without(fields, &field.key.clone());
    fields.push(field);
    fields
}

fn error_of(entry: Vec<Field>) -> String {
    let doc = Toml::Table(vec![table("bin/hello", entry)]);
    match Resolution::from_toml(&doc) {
        Ok(_) => "no error".to_string(),
        Err(e) => e.to_string(),
    }
}

fn hello_store_path() -> StorePath {
    StorePath::new(
        "/nix/store".to_string(),
        "abc".to_string(),
        "hello-2.12".to_string(),
        PathOrigin {
            attr: "hello".to_string(),
            output: "out".to_string(),
            toplevel: true,
            system: Some("x86_64-linux".to_string()),
        },
    )
}

fn sample_db() -> ResolutionDB {
    let mut db = ResolutionDB::new();
    db.insert(Resolution::constant(
        "bin/hello".to_string(),
        Decision::Provide(ProvideData {
            kind: FileType::Symlink,
            file_entry_name: "/bin/hello".to_string(),
            store_path: hello_store_path(),
        }),
    ));
    db.insert(Resolution::constant("include/missing.h".to_string(), Decision::Ignore));
    db.insert(Resolution::constant(
        "lib/python3".to_string(),
        Decision::Provide(ProvideData {
            kind: FileType::Directory,
            file_entry_name: "/lib/python3".to_string(),
            store_path: StorePath::new(
                "/nix/store".to_string(),
                "def".to_string(),
                "python3".to_string(),
                PathOrigin {
                    attr: "python3".to_string(),
                    output: "out".to_string(),
                    toplevel: false,
                    system: None,
                },
            ),
        }),
    ));
    db
}

#[test]
fn a_provide_entry_is_read() {
    let db = read_resolution_db(PROVIDE).expect("a database");
    assert_eq!(db.entries.len(), 1);
    let resolution = db.get("bin/hello").expect("an entry");
    assert_eq!(resolution.requested_path(), "bin/hello");
    match resolution.decision() {
        Decision::Provide(data) => {
            assert_eq!(data.kind, FileType::Symlink);
            assert_eq!(data.file_entry_name, "/bin/hello");
            assert_eq!(data.store_path.as_str(), "/nix/store/abc-hello-2.12");
            assert_eq!(data.store_path.origin.attr, "hello");
            assert_eq!(data.store_path.origin.output, "out");
            assert!(data.store_path.origin.toplevel);
            assert_eq!(data.store_path.origin.system, None);
        }
        Decision::Ignore => panic!("the entry provides"),
    }
}

#[test]
fn an_ignore_entry_is_read() {
    let db = read_resolution_db(IGNORE).expect("a database");
    let resolution = db.get("include/missing.h").expect("an entry");
    assert!(matches!(resolution.decision(), Decision::Ignore));
}

#[test]
fn an_empty_document_is_an_empty_database() {
    let db = read_resolution_db("").expect("a database");
    assert!(db.is_empty());
}

#[test]
fn entries_are_read_whatever_their_order() {
    let both = format!("{}{}", IGNORE, PROVIDE);
    let db = read_resolution_db(&both).expect("a database");
    let paths: Vec<&str> = db.entries.iter().map(|r| r.requested_path().as_str()).collect();
    assert_eq!(paths, vec!["bin/hello", "include/missing.h"]);
}

#[test]
fn a_text_that_is_no_toml_is_told_apart() {
    assert!(matches!(try_read_resolution_db("this is = = no toml"), Err(ReadError::NotToml)));
    assert!(matches!(try_read_resolution_db(IGNORE), Ok(_)));
    match try_read_resolution_db("[\"bin/hello\"]\nresolution = \"constant\"\n") {
        Err(ReadError::Invalid(e)) => assert_eq!(e.to_string(), "missing field `decision`"),
        _ => panic!("an error was due"),
    }
}

#[test]
fn the_error_of_a_document_reaches_the_caller() {
    match read_resolution_db("\"bin/hello\" = 3\n") {
        Err(ParseResolutionError::UnexpectedType(expected, field)) => {
            assert_eq!(expected, "a table");
            assert_eq!(field, "bin/hello");
        }
        _ => panic!("an error was due"),
    }
    let maybe = "[\"bin/x\"]\nresolution = \"constant\"\ndecision = \"maybe\"\n";
    match read_resolution_db(maybe) {
        Err(ParseResolutionError::UnexpectedType(expected, field)) => {
            assert_eq!(expected, "`ignore` or `provide`");
            assert_eq!(field, "decision");
        }
        _ => panic!("an error was due"),
    }
    let one_bad = format!("{}{}", IGNORE, maybe);
    assert!(read_resolution_db(&one_bad).is_err());
    assert!(Resolution::from_toml(&Toml::Integer(3)).is_err());
}

#[test]
fn a_missing_decision_is_reported() {
    assert_eq!(error_of(vec![text("resolution", "constant")]), "missing field `decision`");
}

#[test]
fn an_unknown_decision_is_reported() {
    assert_eq!(
        error_of(vec![text("decision", "maybe")]),
        "expected type ``ignore` or `provide`` for field `decision`"
    );
    assert_eq!(
        error_of(vec![Field { key: "decision".to_string(), value: Toml::Integer(1) }]),
        "expected type ``ignore` or `provide`` for field `decision`"
    );
}

#[test]
fn missing_fields_of_a_provide_entry_are_reported() {
    assert_eq!(error_of(without(provide_fields(), "kind")), "missing field `kind`");
    assert_eq!(
        error_of(without(provide_fields(), "file_entry_name")),
        "missing field `file_entry_name`"
    );
    assert_eq!(error_of(without(provide_fields(), "store_path")), "missing field `store_path`");
    assert_eq!(
        error_of(with(provide_fields(), table("store_path", without(store_path_fields(), "hash")))),
        "missing field `hash`"
    );
    assert_eq!(
        error_of(with(
            provide_fields(),
            table(
                "store_path",
                with(store_path_fields(), table("origin", without(origin_fields(), "toplevel")))
            )
        )),
        "missing field `toplevel`"
    );
}

#[test]
fn fields_of_the_wrong_type_are_reported() {
    assert_eq!(
        error_of(with(provide_fields(), text("kind", "hard-link"))),
        "expected type `fuser::FileType` for field `kind`"
    );
    assert_eq!(
        error_of(with(
            provide_fields(),
            Field { key: "kind".to_string(), value: Toml::Boolean(true) }
        )),
        "expected type `string` for field `kind`"
    );
    assert_eq!(
        error_of(with(
            provide_fields(),
            Field { key: "file_entry_name".to_string(), value: Toml::Integer(1) }
        )),
        "expected type `string` for field `file_entry_name`"
    );
    assert_eq!(
        error_of(with(provide_fields(), text("store_path", "/nix/store/abc-hello"))),
        "expected type `table` for field `store_path`"
    );
    assert_eq!(
        error_of(with(
            provide_fields(),
            table(
                "store_path",
                with(
                    store_path_fields(),
                    table("origin", with(origin_fields(), text("toplevel", "yes")))
                )
            )
        )),
        "expected type `boolean` for field `toplevel`"
    );
}

#[test]
fn an_entry_that_is_no_table_is_reported() {
    let doc = Toml::Table(vec![text("bin/hello", "provide")]);
    match Resolution::from_toml(&doc) {
        Err(ParseResolutionError::UnexpectedType(expected, field)) => {
            assert_eq!(expected, "a table");
            assert_eq!(field, "bin/hello");
        }
        _ => panic!("an error was due"),
    }
}

#[test]
fn a_document_that_is_no_table_is_reported() {
    match Resolution::from_toml(&Toml::Array(Vec::new())) {
        Err(e) => assert_eq!(
            e.to_string(),
            "expected type `an array of table` for field `the whole document`"
        ),
        Ok(_) => panic!("an error was due"),
    }
}

#[test]
fn the_first_entry_in_error_gives_the_error() {
    let doc = Toml::Table(vec![
        table("a", vec![text("decision", "ignore")]),
        table("b", vec![text("resolution", "constant")]),
        table("c", vec![text("decision", "maybe")]),
    ]);
    match Resolution::from_toml(&doc) {
        Err(e) => assert_eq!(e.to_string(), "missing field `decision`"),
        Ok(_) => panic!("an error was due"),
    }
}

#[test]
fn kinds_are_read_back_from_their_names() {
    let kinds = [
        (FileType::Socket, "socket"),
        (FileType::Symlink, "symlink"),
        (FileType::NamedPipe, "named-pipe"),
        (FileType::Directory, "directory"),
        (FileType::CharDevice, "char-device"),
        (FileType::BlockDevice, "block-device"),
        (FileType::RegularFile, "regular-file"),
    ];
    for (kind, name) in kinds {
        assert_eq!(filetype_name(kind), name);
        assert_eq!(parse_filetype_kind(name).ok(), Some(kind));
    }
    assert!(parse_filetype_kind("Symlink").is_err());
}

#[test]
fn the_document_of_a_database_has_one_entry_for_each_path() {
    let doc = db_to_human_toml(&sample_db());
    let keys: Vec<&str> = doc.iter().map(|f| f.key.as_str()).collect();
    assert_eq!(keys, vec!["bin/hello", "include/missing.h", "lib/python3"]);
    match &doc[1].value {
        Toml::Table(fields) => {
            let keys: Vec<&str> = fields.iter().map(|f| f.key.as_str()).collect();
            assert_eq!(keys, vec!["resolution", "decision"]);
        }
        _ => panic!("an entry is a table"),
    }
    match &doc[0].value {
        Toml::Table(fields) => {
            let mut keys: Vec<&str> = fields.iter().map(|f| f.key.as_str()).collect();
            keys.sort();
            assert_eq!(
                keys,
                vec!["decision", "file_entry_name", "kind", "resolution", "store_path"]
            );
        }
        _ => panic!("an entry is a table"),
    }
}

fn describe(db: &ResolutionDB) -> Vec<String> {
    db.entries
        .iter()
        .map(|r| match r.decision() {
            Decision::Ignore => format!("{}: ignore", r.requested_path()),
            Decision::Provide(data) => format!(
                "{}: {:?} {} {} {} {} {} {:?}",
                r.requested_path(),
                data.kind,
                data.file_entry_name,
                data.store_path.as_str(),
                data.store_path.origin.attr,
                data.store_path.origin.output,
                data.store_path.origin.toplevel,
                data.store_path.origin.system,
            ),
        })
        .collect()
}

#[test]
fn what_is_written_is_read_back() {
    let db = sample_db();
    let doc = Toml::Table(db_to_human_toml(&db));
    let back = Resolution::from_toml(&doc).expect("a database");
    assert_eq!(describe(&back), describe(&db));
}

#[test]
fn the_text_that_is_written_is_read_back() {
    let db = sample_db();
    let text = write_resolution_db(&db).expect("a text");
    assert!(text.contains("[\"bin/hello\"]"));
    assert!(text.contains("decision = \"ignore\""));
    assert!(text.contains("system = \"x86_64-linux\""));
    let back = read_resolution_db(&text).expect("a database");
    assert_eq!(describe(&back), describe(&db));
    let again = write_resolution_db(&back).expect("a text");
    assert_eq!(again, text);
}

#[test]
fn writing_what_was_read_gives_the_text_back() {
    let db = read_resolution_db(&format!("{}{}", PROVIDE, IGNORE)).expect("a database");
    let written = write_resolution_db(&db).expect("a text");
    let reread = read_resolution_db(&written).expect("a database");
    assert_eq!(describe(&reread), describe(&db));
    assert_eq!(write_resolution_db(&reread).expect("a text"), written);
}

fn names(list: &[&str]) -> Vec<String> {
    list.iter().map(|name| name.to_string()).collect()
}

#[test]
fn the_database_file_of_a_directory_is_located() {
    assert_eq!(
        locate_resolution_db("/home/user/.buildxyz", &names(&["README", "resolutions.toml"])),
        Some("/home/user/.buildxyz/resolutions.toml".to_string())
    );
    assert_eq!(
        locate_resolution_db("/data/", &names(&["a.toml", "b.toml"])),
        Some("/data/a.toml".to_string())
    );
    assert_eq!(
        locate_resolution_db("", &names(&["notes.txt", ".toml"])),
        Some(".toml".to_string())
    );
}

#[test]
fn no_database_is_located_where_none_lies() {
    assert_eq!(locate_resolution_db("/home/user/.config", &Vec::new()), None);
    assert_eq!(
        locate_resolution_db("/home/user", &names(&["toml", "a.toml.bak", "x.tom", "A.TOML"])),
        None
    );
}
