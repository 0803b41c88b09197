use sticky_situation::filesystem::rtfd::{Attachment, RtfdBundle};

fn entry(name: &str, content: &[u8]) -> Attachment {
    Attachment {
        filename: name.to_string(),
        content: content.to_vec(),
    }
}

#[test]
fn test_read_rtfd_bundle() {
    let rtf_content = r"{\rtf1\ansi\ansicpg1252 Test content}";
    let entries = vec![entry("TXT.rtf", rtf_content.as_bytes())];

    let bundle = RtfdBundle::from_entries(entries).unwrap();
    assert_eq!(bundle.rtf_data, rtf_content.as_bytes());
    assert!(bundle.attachments.is_empty());
}

#[test]
fn test_read_rtfd_with_attachments() {
    let entries = vec![
        entry("TXT.rtf", b"test"),
        entry("IMG_001.tiff", b"fake image"),
    ];

    let bundle = RtfdBundle::from_entries(entries).unwrap();
    assert_eq!(bundle.attachments.len(), 1);
    assert_eq!(bundle.attachments[0].filename, "IMG_001.tiff");
}

#[test]
fn test_read_rtfd_missing_txt_file() {
    // A directory without the primary document decodes to nothing.
    let entries = vec![entry("IMG_001.tiff", b"fake image")];
    let result = RtfdBundle::from_entries(entries);
    assert!(result.is_none());
}

#[test]
fn test_read_rtfd_with_multiple_attachments() {
    let entries = vec![
        entry("TXT.rtf", b"test"),
        entry("IMG_001.png", b"fake png"),
        entry("IMG_002.jpg", b"fake jpg"),
        entry("DOC_001.pdf", b"fake pdf"),
    ];

    let bundle = RtfdBundle::from_entries(entries).unwrap();
    assert_eq!(bundle.attachments.len(), 3);

    let filenames: Vec<String> = bundle
        .attachments
        .iter()
        .map(|a| a.filename.clone())
        .collect();
    assert!(filenames.contains(&"IMG_001.png".to_string()));
    assert!(filenames.contains(&"IMG_002.jpg".to_string()));
    assert!(filenames.contains(&"DOC_001.pdf".to_string()));
}

#[test]
fn test_read_rtfd_attachment_filenames_with_special_chars() {
    let entries = vec![
        entry("TXT.rtf", b"test"),
        entry("file with spaces.png", b"data"),
        entry("file-with-dash.jpg", b"data"),
        entry("file_under_score.gif", b"data"),
    ];

    let bundle = RtfdBundle::from_entries(entries).unwrap();
    assert_eq!(bundle.attachments.len(), 3);
}

#[test]
fn test_read_rtfd_empty_txt_file() {
    let entries = vec![entry("TXT.rtf", b"")];

    let bundle = RtfdBundle::from_entries(entries).unwrap();
    assert_eq!(bundle.rtf_data.len(), 0);
    assert!(bundle.attachments.is_empty());
}

#[test]
fn test_read_rtfd_large_rtf_content() {
    let large_content = "a".repeat(1024 * 1024);
    let entries = vec![entry("TXT.rtf", large_content.as_bytes())];

    let bundle = RtfdBundle::from_entries(entries).unwrap();
    assert_eq!(bundle.rtf_data.len(), large_content.len());
}

#[test]
fn test_read_rtfd_includes_hidden_files() {
    let entries = vec![
        entry("TXT.rtf", b"test"),
        entry(".DS_Store", b"mac metadata"),
        entry(".hidden", b"hidden file"),
    ];

    let bundle = RtfdBundle::from_entries(entries).unwrap();
    // Hidden files are attachments like any others
    assert_eq!(bundle.attachments.len(), 2);

    let filenames: Vec<String> = bundle
        .attachments
        .iter()
        .map(|a| a.filename.clone())
        .collect();
    assert!(filenames.contains(&".DS_Store".to_string()));
    assert!(filenames.contains(&".hidden".to_string()));
}
