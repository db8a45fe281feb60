use netlabs::mail::{
    find_char, last_line, send_boundary, send_final_boundary, Attachment, Command, Contents,
    Credentials, EncodedFile, Header, MailError, Mailbox, Message, Part, Smtp,
};

fn text(p: &Part) -> &str {
    match p {
        Part::Text(t) => t.as_str(),
        Part::File(_) => panic!("expected text"),
    }
}

fn file(p: &Part) -> &str {
    match p {
        Part::File(f) => f.as_str(),
        Part::Text(_) => panic!("expected a file"),
    }
}

#[test]
fn mailbox_text_forms() {
    let named = Mailbox::named("Ann".to_string(), "ann@spbu.ru".to_string());
    assert_eq!(named.to_string(), "Ann <ann@spbu.ru>");
    assert_eq!(named.email(), "ann@spbu.ru");
    let anonymous = Mailbox::anonymous("bob@spbu.ru".to_string());
    assert_eq!(anonymous.to_string(), "<bob@spbu.ru>");
}

#[test]
fn credentials_domain_and_auth() {
    let c = Credentials::new("a@b".to_string(), "pw".to_string());
    assert_eq!(c.domain().unwrap(), "spbu.ru");
    assert_eq!(c.encode(), "AGFAYgBwdw==");
}

#[test]
fn header_and_command_lines() {
    assert_eq!(Header::Subject.send_with("hi"), "Subject: hi\r\n");
    assert_eq!(Header::MimeVersion.to_string(), "MIME-Version");
    assert_eq!(Header::ContentTransferEncoding.name(), "Content-Transfer-Encoding");
    assert_eq!(Command::MailFrom.send_with_path("a@b"), "MAIL FROM:<a@b>");
    assert_eq!(Command::Ehlo.send_with("spbu.ru"), "EHLO spbu.ru");
    assert_eq!(Command::Auth.to_string(), "AUTH PLAIN");
    assert_eq!(Command::Quit.send(), "QUIT");
}

#[test]
fn last_line_of_reply() {
    assert!(last_line("250 OK\r\n"));
    assert!(!last_line("250-SIZE 1000\r\n"));
    assert!(!last_line("250"));
    assert!(!last_line(""));
}

#[test]
fn find_char_positions() {
    assert_eq!(find_char("a/b/c", '/', 0), Some(1));
    assert_eq!(find_char("a/b/c", '/', 2), Some(3));
    assert_eq!(find_char("a/b/c", '/', 4), None);
}

#[test]
fn attachment_from_text() {
    let a = Attachment::from_str("image/png/dir/pic.png").unwrap();
    assert_eq!(a.mime(), "image/png");
    assert_eq!(a.file(), "dir/pic.png");
    let b = Attachment::from_str("image/gif/gif.gif").unwrap();
    assert_eq!(b.mime(), "image/gif");
    assert_eq!(b.file(), "gif.gif");
    match Attachment::from_str("picture.png") {
        Err(MailError::WrongFormat(t)) => assert_eq!(t, "picture.png"),
        Ok(_) => panic!("a text without a slash is refused"),
    }
}

#[test]
fn boundaries() {
    assert_eq!(send_boundary("B"), "\r\n--B\r\n");
    assert_eq!(send_final_boundary("B"), "\r\n--B--\r\n.\r\n");
}

#[test]
fn contents_parts_in_order() {
    let a = Attachment::new("image/png".to_string(), "pic.png".to_string());
    let c = Contents::with_boundary("Hello".to_string(), "B".to_string(), "body.txt".to_string(), vec![a]);
    assert_eq!(c.subject(), "Hello");
    let parts = c.send();
    assert_eq!(parts.len(), 5);
    assert_eq!(
        text(&parts[0]),
        "\r\n--B\r\nContent-Type: text/plain; charset=utf-8\r\nContent-Transfer-Encoding: base64\r\n"
    );
    assert_eq!(file(&parts[1]), "body.txt");
    assert_eq!(
        text(&parts[2]),
        "\r\n--B\r\nContent-Disposition: inline; filename=\"pic.png\"\r\nContent-Transfer-Encoding: base64\r\nContent-Type: image/png\r\n"
    );
    assert_eq!(file(&parts[3]), "pic.png");
    assert_eq!(text(&parts[4]), "\r\n--B--\r\n.\r\n");
}

#[test]
fn random_boundaries_differ() {
    let a = Contents::new("s".to_string(), "t".to_string(), vec![]);
    let b = Contents::new("s".to_string(), "t".to_string(), vec![]);
    assert_eq!(a.boundary().len(), 36);
    assert_ne!(a.boundary(), b.boundary());
}

#[test]
fn message_headers_and_parts() {
    let from = Mailbox::named("Ann".to_string(), "ann@spbu.ru".to_string());
    let to = Mailbox::anonymous("bob@spbu.ru".to_string());
    let c = Contents::with_boundary("Hi".to_string(), "B".to_string(), "body.txt".to_string(), vec![]);
    let m = Message::new(from, to, c);
    assert_eq!(
        m.headers(),
        "From: Ann <ann@spbu.ru>\r\nTo: <bob@spbu.ru>\r\nSubject: Hi\r\nMIME-Version: 1.0\r\nContent-Type: multipart/mixed; boundary=B\r\n"
    );
    assert_eq!(m.from_email(), "ann@spbu.ru");
    assert_eq!(m.to_email(), "bob@spbu.ru");
    let parts = m.send();
    assert_eq!(parts.len(), 4);
    assert_eq!(text(&parts[0]), m.headers());
    assert_eq!(file(&parts[2]), "body.txt");
}

#[test]
fn session_commands() {
    let smtp = Smtp::new("smtp.spbu.ru".to_string(), "smtp.spbu.ru:465".to_string(), "a@b".to_string(), "pw".to_string());
    assert_eq!(smtp.host(), "smtp.spbu.ru");
    assert_eq!(smtp.server(), "smtp.spbu.ru:465");
    let m = Message::new(
        Mailbox::named("Ann".to_string(), "a@b".to_string()),
        Mailbox::anonymous("c@d".to_string()),
        Contents::with_boundary("s".to_string(), "B".to_string(), "t".to_string(), vec![]),
    );
    let commands = smtp.start_session(&m);
    assert_eq!(commands, vec!["EHLO spbu.ru", "AUTH PLAIN AGFAYgBwdw==", "MAIL FROM:<a@b>", "RCPT TO:<c@d>", "DATA"]);
    assert_eq!(smtp.finish_session(), "QUIT");
}

#[test]
fn encoded_lines_of_a_file() {
    let data: Vec<u8> = (0u8..60).collect();
    let mut e = EncodedFile::new();
    let lines = e.chunked_encode(&data);
    assert_eq!(lines, "\r\nAAECAwQFBgcICQoLDA0ODxAREhMUFRYXGBkaGxwdHh8gISIjJCUmJygpKissLS4vMDEyMzQ1Njc4");
    assert_eq!(e.encode_remainder(), "\r\nOTo7\r\n");
}

#[test]
fn encoding_does_not_depend_on_pieces() {
    let data: Vec<u8> = (0..200u32).map(|x| (x * 7 % 256) as u8).collect();
    let mut whole = EncodedFile::new();
    let mut all = whole.chunked_encode(&data);
    all.push_str(&whole.encode_remainder());
    let mut pieces = EncodedFile::new();
    let mut parts = pieces.chunked_encode(&data[..13]);
    parts.push_str(&pieces.chunked_encode(&data[13..100]));
    parts.push_str(&pieces.chunked_encode(&data[100..]));
    parts.push_str(&pieces.encode_remainder());
    assert_eq!(all, parts);
}

#[test]
fn empty_file_encodes_to_blank_line() {
    let e = EncodedFile::new();
    assert_eq!(e.encode_remainder(), "\r\n\r\n");
}

#[test]
fn configured_transport() {
    let c = netlabs::mail::MailConfig {
        smtp: "smtp.spbu.ru".to_string(),
        port: 465,
        email: "a@b".to_string(),
        password: "pw".to_string(),
        from: "Ann".to_string(),
    };
    assert_eq!(c.host(), "smtp.spbu.ru");
    assert_eq!(c.smtp(), "smtp.spbu.ru:465");
    assert_eq!(c.from().to_string(), "Ann <a@b>");
    let t = c.transport();
    assert_eq!(t.server(), "smtp.spbu.ru:465");
}

#[test]
fn boundary_is_hyphenated_v4_uuid() {
    let c = Contents::new("s".to_string(), "t".to_string(), vec![]);
    let b = c.boundary();
    let groups: Vec<&str> = b.split('-').collect();
    assert_eq!(groups.iter().map(|g| g.len()).collect::<Vec<_>>(), vec![8, 4, 4, 4, 12]);
    assert!(b.chars().all(|ch| ch == '-' || ch.is_ascii_digit() || ('a'..='f').contains(&ch)));
    assert!(groups[2].starts_with('4'));
    assert!("89ab".contains(&groups[3][..1]));
}

#[test]
fn full_lines_are_seventy_six_characters() {
    let data: Vec<u8> = (0..250u32).map(|x| (x % 256) as u8).collect();
    let mut e = EncodedFile::new();
    let lines = e.chunked_encode(&data);
    assert_eq!(lines.len(), 250 / 57 * 78);
    for line in lines.split("\r\n").skip(1) {
        assert_eq!(line.len(), 76);
    }
    let more = e.chunked_encode(&data[..10]);
    assert_eq!(more.len(), (250 % 57 + 10) / 57 * 78);
}

#[test]
fn attachment_error_text() {
    let e = MailError::WrongFormat("plain".to_string());
    assert_eq!(e.text(), "wrong attachment format: plain");
    match Attachment::from_str("plain") {
        Err(e) => assert_eq!(e.text(), "wrong attachment format: plain"),
        Ok(_) => panic!("expected a refusal"),
    }
}
