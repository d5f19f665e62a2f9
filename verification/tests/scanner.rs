use oxide::{ChangedContent, DetectSources, GlobEntry, ScannerOptions};

#[test]
fn options_carry_their_sources() {
    let options = ScannerOptions {
        detect_sources: Some(DetectSources { base: String::from("/project") }),
        sources: Some(vec![GlobEntry {
            base: String::from("/project/src"),
            pattern: String::from("**/*.html"),
        }]),
    };
    let copy = options.clone();
    assert_eq!(copy.detect_sources.unwrap().base, "/project");
    let sources = copy.sources.unwrap();
    assert_eq!(sources.len(), 1);
    assert_eq!(sources[0].base, "/project/src");
    assert_eq!(sources[0].pattern, "**/*.html");
}

#[test]
fn changed_content_is_a_file_or_a_text() {
    let inline = ChangedContent {
        file: None,
        content: Some(String::from("<div class='a'>")),
        extension: String::from("html"),
    };
    let on_disk = ChangedContent {
        file: Some(String::from("index.html")),
        content: None,
        extension: String::from("html"),
    };
    assert_eq!(inline.clone().content.unwrap(), "<div class='a'>");
    assert_eq!(on_disk.clone().file.unwrap(), "index.html");
    assert_eq!(inline.extension, on_disk.extension);
}
