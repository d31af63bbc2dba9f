use steam_discovery::discover::library_candidates;
use steam_discovery::kv::lookup_doc_field;
use steam_discovery::scan::manifest_fields;

fn chars(s: &str) -> Vec<char> {
    s.chars().collect()
}

fn text(v: &Vec<char>) -> String {
    v.iter().collect()
}

#[test]
fn manifest_with_both_fields() {
    let content = chars(
        "\"AppState\"\n{\n\t\"appid\"\t\t\"440\"\n\t\"installdir\"\t\t\"Team Fortress 2\"\n}\n",
    );
    let rec = manifest_fields(&content).expect("both fields present");
    assert_eq!(text(&rec.appid), "440");
    assert_eq!(text(&rec.installdir), "Team Fortress 2");
}

#[test]
fn quoted_and_bare_numbers_agree() {
    let quoted = chars("\"AppState\" { \"appid\" \"440\" \"installdir\" \"tf2\" }");
    let bare = chars("\"AppState\" { \"appid\" 440 \"installdir\" \"tf2\" }");
    let a = manifest_fields(&quoted).expect("quoted");
    let b = manifest_fields(&bare).expect("bare");
    assert_eq!(text(&a.appid), text(&b.appid));
    assert_eq!(text(&a.appid), "440");
}

#[test]
fn missing_appid_yields_nothing() {
    let content = chars("\"AppState\" { \"installdir\" \"tf2\" }");
    assert!(manifest_fields(&content).is_none());
}

#[test]
fn missing_installdir_yields_nothing() {
    let content = chars("\"AppState\" { \"appid\" \"440\" }");
    assert!(manifest_fields(&content).is_none());
}

#[test]
fn unbalanced_braces_yield_nothing() {
    let content = chars("\"AppState\" { \"appid\" \"440\" \"installdir\" \"tf2\"");
    assert!(manifest_fields(&content).is_none());
}

#[test]
fn trailing_garbage_yields_nothing() {
    let content = chars("\"AppState\" { \"appid\" \"440\" \"installdir\" \"tf2\" } }");
    assert!(manifest_fields(&content).is_none());
}

#[test]
fn empty_text_yields_nothing() {
    assert!(manifest_fields(&chars("")).is_none());
    assert!(manifest_fields(&chars("   \n\t ")).is_none());
}

#[test]
fn nested_blocks_are_skipped() {
    let content = chars(
        "\"AppState\" { \"appid\" \"72850\" \"InstalledDepots\" { \"72851\" { \"manifest\" \"7\" } } \"installdir\" \"Skyrim\" }",
    );
    let rec = manifest_fields(&content).expect("fields around a nested block");
    assert_eq!(text(&rec.appid), "72850");
    assert_eq!(text(&rec.installdir), "Skyrim");
}

#[test]
fn escapes_are_decoded() {
    let content = chars(
        "\"AppState\" { \"appid\" \"1\" \"installdir\" \"A\\\\B \\\"q\\\" tab\\there\" }",
    );
    let rec = manifest_fields(&content).expect("escaped value");
    assert_eq!(text(&rec.installdir), "A\\B \"q\" tab\there");
}

#[test]
fn block_valued_key_counts_as_absent() {
    let content = chars("\"root\" { \"appid\" { \"x\" \"y\" } \"other\" \"1\" }");
    assert!(lookup_doc_field(&content, &chars("appid")).is_none());
    let found = lookup_doc_field(&content, &chars("other")).expect("leaf key");
    assert_eq!(text(&found), "1");
}

#[test]
fn first_leaf_under_a_repeated_key_wins() {
    let content = chars("\"AppState\" { \"appid\" \"1\" \"appid\" \"2\" \"installdir\" \"x\" }");
    let rec = manifest_fields(&content).expect("repeated key");
    assert_eq!(text(&rec.appid), "1");
}

#[test]
fn carriage_returns_count_as_whitespace() {
    let content = chars("\"AppState\"\r\n{\r\n\"appid\" \"440\"\r\n\"installdir\" \"tf2\"\r\n}\r\n");
    let rec = manifest_fields(&content).expect("crlf document");
    assert_eq!(text(&rec.appid), "440");
}

#[test]
fn descriptor_paths_in_file_order() {
    let content = chars(
        "\"libraryfolders\"\n{\n\t\"0\"\n\t{\n\t\t\"path\"\t\t\"C:\\\\Steam\"\n\t\t\"label\"\t\t\"\"\n\t}\n\t\"1\"\n\t{\n\t\t\"path\"\t\t\"D:\\\\SteamLibrary\"\n\t}\n}\n",
    );
    let paths = library_candidates(Some(&content));
    assert_eq!(paths.len(), 2);
    assert_eq!(text(&paths[0]), "C:\\Steam");
    assert_eq!(text(&paths[1]), "D:\\SteamLibrary");
}

#[test]
fn descriptor_entries_without_path_are_ignored() {
    let content = chars(
        "\"libraryfolders\" { \"0\" { \"label\" \"x\" } \"1\" { \"path\" \"/mnt/games\" } \"contentstatsid\" \"7\" }",
    );
    let paths = library_candidates(Some(&content));
    assert_eq!(paths.len(), 1);
    assert_eq!(text(&paths[0]), "/mnt/games");
}

#[test]
fn descriptor_entries_with_nested_blocks_keep_their_path() {
    let content = chars(
        "\"libraryfolders\" { \"0\" { \"path\" \"/ssd\" \"apps\" { \"440\" \"1234\" } } \"1\" { \"apps\" { } \"path\" \"/hdd\" } }",
    );
    let paths = library_candidates(Some(&content));
    assert_eq!(paths.len(), 2);
    assert_eq!(text(&paths[0]), "/ssd");
    assert_eq!(text(&paths[1]), "/hdd");
}

#[test]
fn bare_keys_and_values_parse_like_quoted_ones() {
    let content = chars("AppState { appid 440 installdir tf2 }");
    let rec = manifest_fields(&content).expect("bare spellings");
    assert_eq!(text(&rec.appid), "440");
    assert_eq!(text(&rec.installdir), "tf2");
}

#[test]
fn malformed_descriptor_declares_nothing() {
    let content = chars("\"libraryfolders\" { \"0\" { \"path\" \"/mnt/games\" }");
    assert_eq!(library_candidates(Some(&content)).len(), 0);
}
