use bootloader::boot_info::{BootConfig, BootConfigError};
use bootloader::cfg::{parse_entry, strip_comment, CfgError, CfgFile, CfgLookupError};

fn pairs<'a>(file: &CfgFile<'a>) -> Vec<(&'a str, &'a str)> {
    file.entries().iter().map(|e| (e.key, e.value)).collect()
}

#[test]
fn reads_entries_in_order() {
    let file = CfgFile::parse(b"a = 1\n\n  b=2  # two\r\n# nothing\na=3").unwrap();
    assert_eq!(pairs(&file), vec![("a", "1"), ("b", "2"), ("a", "3")]);
}

#[test]
fn an_empty_file_has_no_entries() {
    assert_eq!(pairs(&CfgFile::parse(b"").unwrap()), vec![]);
    assert_eq!(pairs(&CfgFile::parse(b"\n\n# only a comment\n \t\n").unwrap()), vec![]);
}

#[test]
fn the_last_entry_counts() {
    let file = CfgFile::parse(b"k=1\nother=x\nk=2\n").unwrap();
    assert_eq!(file.get("k"), Some("2"));
    assert_eq!(file.get_all("k"), vec!["1", "2"]);
    assert_eq!(file.get_all("k").last().copied(), file.get("k"));
    assert_eq!(file.get_all("missing"), Vec::<&str>::new());
    assert!(file.has("other"));
    assert!(!file.has("missing"));
    assert_eq!(file.get("missing"), None);
}

#[test]
fn a_required_key_is_named_where_it_is_missing() {
    let file = CfgFile::parse(b"k=1\n").unwrap();
    assert_eq!(file.require("k"), Ok("1"));
    assert_eq!(
        file.require("missing"),
        Err(CfgLookupError::MissingRequiredKey { key: "missing" })
    );
}

#[test]
fn bytes_that_are_no_text_are_refused() {
    assert_eq!(
        CfgFile::parse(&[b'a', b'=', 0xff]).unwrap_err(),
        CfgError::InvalidUtf8
    );
    let file = CfgFile::parse("k=\u{e9}\u{4e2d}\u{1f600}".as_bytes()).unwrap();
    assert_eq!(file.get("k"), Some("\u{e9}\u{4e2d}\u{1f600}"));
}

#[test]
fn the_first_bad_line_is_reported() {
    assert_eq!(
        CfgFile::parse(b"a=1\n# c\nword\n=2\n").unwrap_err(),
        CfgError::MissingEquals { line: 3 }
    );
    assert_eq!(
        CfgFile::parse(b"\n  = 2\nword\n").unwrap_err(),
        CfgError::EmptyKey { line: 2 }
    );
}

#[test]
fn an_equals_sign_in_the_value_stays() {
    let file = CfgFile::parse(b"args = root=/dev/sda quiet\nempty =\n").unwrap();
    assert_eq!(file.get("args"), Some("root=/dev/sda quiet"));
    assert_eq!(file.get("empty"), Some(""));
}

#[test]
fn an_equals_sign_in_a_comment_does_not_count() {
    assert_eq!(
        CfgFile::parse(b"key # = value\n").unwrap_err(),
        CfgError::MissingEquals { line: 1 }
    );
    assert_eq!(strip_comment("a=b # c # d"), "a=b ");
    assert_eq!(strip_comment("a=b"), "a=b");
    assert_eq!(strip_comment("#"), "");
}

#[test]
fn a_clean_entry_reads_back() {
    for (key, value) in [("k", "v"), ("a b", "c = d"), ("k", ""), ("\u{e9}", "\u{e8} \u{ea}")] {
        let line = format!("{key}={value}");
        let entry = parse_entry(&line, 1).unwrap();
        assert_eq!((entry.key, entry.value), (key, value));
        let file = CfgFile::parse(line.as_bytes()).unwrap();
        assert_eq!(pairs(&file), vec![(key, value)]);
    }
}

#[test]
fn a_written_file_reads_back() {
    let entries = [("k", "v"), ("a b", "c = d"), ("k", ""), ("\u{e9}", "\u{4e2d} \r x")];
    let text: String = entries.iter().map(|(k, v)| format!("{k}={v}\n")).collect();
    assert_eq!(pairs(&CfgFile::parse(text.as_bytes()).unwrap()), entries);
}

#[test]
fn joining_files_joins_their_entries() {
    let a = b"a=1\n# c\nb=2\n";
    let b = b"b=3\nc=4";
    let both = [&a[..], &b[..]].concat();
    let joined = CfgFile::parse(&both).unwrap();
    let mut expected = pairs(&CfgFile::parse(a).unwrap());
    expected.extend(pairs(&CfgFile::parse(b).unwrap()));
    assert_eq!(pairs(&joined), expected);
    assert_eq!(
        CfgFile::parse(&[&b"word\n"[..], &b[..]].concat()).unwrap_err(),
        CfgError::MissingEquals { line: 1 }
    );
    assert!(CfgFile::parse(&[&a[..], &b"=1"[..]].concat()).is_err());
}

#[test]
fn settings_are_checked_in_order() {
    let read = |text: &'static str| CfgFile::parse(text.as_bytes()).unwrap().read::<BootConfig>();
    assert_eq!(read(""), Err(BootConfigError::MissingKernel));
    assert_eq!(
        read("framebuffer_width=x\nframebuffer_height=x"),
        Err(BootConfigError::MissingKernel)
    );
    assert_eq!(
        read("kernel=k\nframebuffer_height=x"),
        Err(BootConfigError::MissingFramebufferWidth)
    );
    assert_eq!(
        read("kernel=k\nframebuffer_width=-1"),
        Err(BootConfigError::InvalidFramebufferWidth)
    );
    assert_eq!(
        read("kernel=k\nframebuffer_width=1"),
        Err(BootConfigError::MissingFramebufferHeight)
    );
    assert_eq!(
        read("kernel=k\nframebuffer_width=1\nframebuffer_height="),
        Err(BootConfigError::InvalidFramebufferHeight)
    );
    let config = read("kernel=k\nframebuffer_width=1\nframebuffer_height=+2\nextra=3").unwrap();
    assert_eq!(config.framebuffer.minimum_width, Some(1));
    assert_eq!(config.framebuffer.minimum_height, Some(2));
    let config = read("kernel=k\nframebuffer_width=x\nframebuffer_height=2\nframebuffer_width=7")
        .unwrap();
    assert_eq!(config.framebuffer.minimum_width, Some(7));
}
