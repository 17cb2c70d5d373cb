//! Checks of dump parsing, naming and restore planning.

use gel_cli::restore::DumpError;
use gel_cli::restore::NameError;
use gel_cli::restore::PacketParse;
use gel_cli::restore::PacketType;
use gel_cli::restore::check_dump_header;
use gel_cli::restore::create_database_stmt;
use gel_cli::restore::file_stem;
use gel_cli::restore::has_dump_extension;
use gel_cli::restore::parse_packet;
use gel_cli::restore::path_to_database_name;
use gel_cli::restore::quote_name;
use gel_cli::restore::should_create_database;
use gel_cli::restore::statement_is_trivial;

const MAGIC: [u8; 17] = [
    0xff, 0xd8, 0x00, 0x00, 0xd8, b'E', b'D', b'G', b'E', b'D', b'B', 0x00, b'D', b'U', b'M',
    b'P', 0x00,
];

fn packet(kind: u8, payload: &[u8]) -> Vec<u8> {
    let mut v = vec![kind];
    v.extend_from_slice(&[0u8; 20]);
    v.extend_from_slice(&(payload.len() as u32).to_be_bytes());
    v.extend_from_slice(payload);
    v
}

#[test]
fn short_buffer_asks_for_header() {
    let buf = vec![b'D', 0, 0];
    assert!(matches!(parse_packet(&buf, PacketType::Block), PacketParse::NeedBytes(25)));
}

#[test]
fn partial_payload_asks_for_total() {
    let mut buf = packet(b'D', b"abcdef");
    buf.truncate(27);
    assert!(matches!(parse_packet(&buf, PacketType::Block), PacketParse::NeedBytes(31)));
}

#[test]
fn complete_packet_reports_length() {
    let buf = packet(b'D', b"abcdef");
    assert!(matches!(parse_packet(&buf, PacketType::Block), PacketParse::Packet(6)));
}

#[test]
fn unknown_type_byte_is_invalid() {
    let buf = packet(b'X', b"");
    assert!(matches!(parse_packet(&buf, PacketType::Block), PacketParse::Invalid(b'X')));
}

#[test]
fn wrong_kind_is_a_mismatch() {
    let buf = packet(b'H', b"");
    assert!(matches!(
        parse_packet(&buf, PacketType::Block),
        PacketParse::Mismatch(PacketType::Header)
    ));
}

#[test]
fn good_header_reports_version() {
    let mut buf = MAGIC.to_vec();
    buf.extend_from_slice(&1u64.to_be_bytes());
    assert_eq!(check_dump_header(&buf).unwrap(), 1);
}

#[test]
fn bad_magic_is_rejected() {
    let mut buf = MAGIC.to_vec();
    buf[0] = 0x00;
    buf.extend_from_slice(&1u64.to_be_bytes());
    assert_eq!(check_dump_header(&buf).unwrap_err(), DumpError::BadMagic);
}

#[test]
fn version_zero_and_future_versions_are_rejected() {
    let mut v0 = MAGIC.to_vec();
    v0.extend_from_slice(&0u64.to_be_bytes());
    assert_eq!(check_dump_header(&v0).unwrap_err(), DumpError::UnsupportedVersion);
    let mut v2 = MAGIC.to_vec();
    v2.extend_from_slice(&2u64.to_be_bytes());
    assert_eq!(check_dump_header(&v2).unwrap_err(), DumpError::UnsupportedVersion);
}

#[test]
fn stems_drop_only_the_extension() {
    assert_eq!(file_stem("mydb.dump"), "mydb");
    assert_eq!(file_stem("a.b.dump"), "a.b");
    assert_eq!(file_stem("nodot"), "nodot");
    assert_eq!(file_stem(".hidden"), ".hidden");
}

#[test]
fn database_names_are_percent_decoded() {
    assert_eq!(path_to_database_name("my%20db.dump").unwrap(), "my db");
    assert_eq!(path_to_database_name("plain.dump").unwrap(), "plain");
    assert_eq!(
        path_to_database_name("bad%ff%fe.dump").unwrap_err(),
        NameError::InvalidEncoding
    );
}

#[test]
fn dump_extension_is_recognized() {
    assert!(has_dump_extension("x.dump"));
    assert!(!has_dump_extension("x.txt"));
    assert!(!has_dump_extension(".dump"));
    assert!(!has_dump_extension("dump"));
}

#[test]
fn trivial_statements_are_skipped() {
    assert!(statement_is_trivial("  ;\n\t; "));
    assert!(statement_is_trivial(""));
    assert!(!statement_is_trivial("SELECT 1;"));
}

#[test]
fn comment_only_chunks_are_trivial() {
    assert!(statement_is_trivial("# just a note\n  ;"));
    assert!(statement_is_trivial("# unterminated comment"));
    assert!(!statement_is_trivial("# note\nSELECT 1;"));
    assert!(!statement_is_trivial("SELECT 1; # trailing"));
}

#[test]
fn names_quote_only_when_needed() {
    assert_eq!(quote_name("mydb"), "mydb");
    assert_eq!(quote_name("_x9"), "_x9");
    assert_eq!(quote_name("9lives"), "`9lives`");
    assert_eq!(quote_name("my-db"), "`my-db`");
    assert_eq!(quote_name("we`ird"), "`we``ird`");
    assert_eq!(quote_name(""), "``");
}

#[test]
fn reserved_keywords_are_quoted() {
    assert_eq!(quote_name("select"), "`select`");
    assert_eq!(quote_name("SELECT"), "`SELECT`");
    assert_eq!(quote_name("Update"), "`Update`");
    assert_eq!(quote_name("with"), "`with`");
    assert_eq!(quote_name("selection"), "selection");
    assert_eq!(create_database_stmt("group"), "CREATE DATABASE `group`");
}

#[test]
fn create_statement_uses_quoting() {
    assert_eq!(create_database_stmt("my-db"), "CREATE DATABASE `my-db`");
    assert_eq!(create_database_stmt("plain"), "CREATE DATABASE plain");
}

#[test]
fn existing_databases_are_not_recreated() {
    let existing = vec!["a".to_string(), "b".to_string()];
    assert!(!should_create_database("a", &existing));
    assert!(should_create_database("c", &existing));
    assert!(should_create_database("c", &Vec::new()));
}
