use sticky_situation::filesystem::rtfd::{Attachment, RtfdBundle};

#[test]
fn test_write_rtfd_bundle() {
    let bundle = RtfdBundle {
        rtf_data: b"{\\rtf1 Test}".to_vec(),
        attachments: vec![],
    };

    let entries = bundle.to_entries();

    assert_eq!(entries.len(), 1);
    assert_eq!(entries[0].filename, "TXT.rtf");
    assert_eq!(entries[0].content, b"{\\rtf1 Test}".to_vec());
}

#[test]
fn test_write_rtfd_with_attachments() {
    let bundle = RtfdBundle {
        rtf_data: b"{\\rtf1 Test}".to_vec(),
        attachments: vec![Attachment {
            filename: "IMG_001.tiff".to_string(),
            content: b"fake image".to_vec(),
        }],
    };

    let entries = bundle.to_entries();

    assert!(entries
        .iter()
        .any(|e| e.filename == "IMG_001.tiff" && e.content == b"fake image".to_vec()));
}

#[test]
fn test_bundle_entries_round_trip() {
    // Writing a bundle with N attachments and reading it back yields the
    // same primary document bytes and the same N attachments.
    let bundle = RtfdBundle {
        rtf_data: b"{\\rtf1 Round trip}".to_vec(),
        attachments: vec![
            Attachment {
                filename: "one.png".to_string(),
                content: b"first".to_vec(),
            },
            Attachment {
                filename: "two.jpg".to_string(),
                content: b"second".to_vec(),
            },
            Attachment {
                filename: "three.pdf".to_string(),
                content: b"third".to_vec(),
            },
        ],
    };

    let entries = bundle.to_entries();
    let read_back = RtfdBundle::from_entries(entries).unwrap();

    assert_eq!(read_back.rtf_data, bundle.rtf_data);
    assert_eq!(read_back.attachments.len(), 3);
    for (a, b) in bundle.attachments.iter().zip(read_back.attachments.iter()) {
        assert_eq!(a.filename, b.filename);
        assert_eq!(a.content, b.content);
    }
}

#[test]
fn test_create_minimal_wraps_text() {
    let bundle = RtfdBundle::create_minimal("Hello");
    assert!(bundle.attachments.is_empty());
    let text = String::from_utf8(bundle.rtf_data.clone()).unwrap();
    assert!(text.starts_with("{\\rtf1\\ansi\\ansicpg1252\\cocoartf2820"));
    assert!(text.ends_with("Hello}"));
}
