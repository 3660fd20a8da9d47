use ebloid::header::{
    check_status, content_disposition_filename, decode_percent_utf8, header_value_text,
    response_file_name, safe_download_name,
};

#[test]
fn reads_utf8_download_filename() {
    let header = "attachment; filename=\"___ smeshno.opt.mp4\"; filename*=UTF-8''%D0%98%D0%BC%D1%8F%20smeshno.opt.mp4";
    assert_eq!(
        content_disposition_filename(header).as_deref(),
        Some("Имя smeshno.opt.mp4")
    );
}

#[test]
fn removes_path_separators_from_download_filename() {
    assert_eq!(
        content_disposition_filename("attachment; filename=\"../../video.mp4\"").as_deref(),
        Some(".._.._video.mp4")
    );
}

#[test]
fn falls_back_to_plain_name_when_extended_value_is_not_utf8() {
    assert_eq!(
        content_disposition_filename("attachment; filename*=UTF-8''%FF; filename=plain.txt")
            .as_deref(),
        Some("plain.txt")
    );
}

#[test]
fn skips_plain_names_that_are_not_safe() {
    assert_eq!(
        content_disposition_filename("attachment; filename=\"..\"; FILENAME=second.bin").as_deref(),
        Some("second.bin")
    );
    assert_eq!(content_disposition_filename("inline"), None);
    assert_eq!(content_disposition_filename("attachment; Filename=x.txt"), None);
}

#[test]
fn extended_value_without_charset_is_decoded_whole() {
    assert_eq!(
        content_disposition_filename("attachment;filename*=a%2Fb.txt").as_deref(),
        Some("a_b.txt")
    );
}

#[test]
fn decodes_percent_escapes() {
    assert_eq!(decode_percent_utf8("a%20b").as_deref(), Some("a b"));
    assert_eq!(decode_percent_utf8("%41%42c").as_deref(), Some("ABc"));
    assert_eq!(decode_percent_utf8("%+9").as_deref(), Some("\t"));
    assert_eq!(decode_percent_utf8("100%").as_deref(), Some("100%"));
    assert_eq!(decode_percent_utf8("%4").as_deref(), Some("%4"));
    assert_eq!(decode_percent_utf8("%zz1"), None);
    assert_eq!(decode_percent_utf8("%-1x"), None);
    assert_eq!(decode_percent_utf8("%C3"), None);
    assert_eq!(decode_percent_utf8("плёнка").as_deref(), Some("плёнка"));
}

#[test]
fn safe_names_are_trimmed_and_unquoted() {
    assert_eq!(safe_download_name("  \"report.pdf\"\u{3000}").as_deref(), Some("report.pdf"));
    assert_eq!(safe_download_name("a\\b\0c").as_deref(), Some("a_b_c"));
    assert_eq!(safe_download_name(" \" \" ").as_deref(), Some(" "));
    assert_eq!(safe_download_name("\"\""), None);
    assert_eq!(safe_download_name("."), None);
    assert_eq!(safe_download_name(" .. "), None);
    assert_eq!(safe_download_name("..."), Some("...".to_string()));
}

#[test]
fn header_values_are_read_as_visible_ascii() {
    assert_eq!(header_value_text(b"attachment;\tfilename=a.txt").as_deref(), Some("attachment;\tfilename=a.txt"));
    assert_eq!(header_value_text(b"").as_deref(), Some(""));
    assert_eq!(header_value_text("имя".as_bytes()), None);
    assert_eq!(header_value_text(b"a\x7fb"), None);
    assert_eq!(header_value_text(b"a\nb"), None);
}

#[test]
fn error_statuses_are_refused() {
    assert_eq!(check_status(200), Ok(()));
    assert_eq!(check_status(304), Ok(()));
    assert_eq!(check_status(399), Ok(()));
    assert_eq!(check_status(400), Err(()));
    assert_eq!(check_status(404), Err(()));
    assert_eq!(check_status(599), Err(()));
    assert_eq!(check_status(600), Ok(()));
}

#[test]
fn answers_name_their_file_only_when_they_can() {
    let header: &[u8] = b"attachment; filename*=UTF-8''%D0%98%D0%BC%D1%8F.mp4";
    assert_eq!(response_file_name(200, Some(header)).as_deref(), Some("Имя.mp4"));
    assert_eq!(response_file_name(404, Some(header)), None);
    assert_eq!(response_file_name(500, Some(header)), None);
    assert_eq!(response_file_name(200, None), None);
    assert_eq!(response_file_name(200, Some("attachment; filename=\"имя.mp4\"".as_bytes())), None);
    assert_eq!(response_file_name(200, Some(b"inline".as_slice())), None);
    assert_eq!(response_file_name(302, Some(b"attachment; filename=clip.mp4".as_slice())).as_deref(), Some("clip.mp4"));
}
