//! Composing a MIME mail and the SMTP dialogue that delivers it: the
//! mailboxes and credentials, the header and command lines, attachments
//! given as `type/subtype/path`, the multipart framing, and the base64 body
//! lines of each attached file.

use base64::Engine;
use vstd::prelude::*;
use vstd::string::{StrSliceExecFns, StringExecFns, StringSliceAdditionalSpecFns};
use vstd::utf8::encode_utf8;
use crate::uuids::{is_v4_uuid, new_v4_uuid, uuid_text, uuid_to_string};

verus! {

/// Standard base64 (with padding) of `bytes`, as the `base64` crate writes
/// it.
pub uninterp spec fn base64_standard(bytes: Seq<u8>) -> Seq<char>;

/// Encodes `bytes` with `base64::prelude::BASE64_STANDARD.encode`. The
/// result is claimed to be `base64_standard` of the input and four
/// characters long for every started group of three bytes. The crate
/// panics when that length does not fit in `usize`, which `requires` rules
/// out.
#[verifier::external_body]
fn base64_encode(bytes: &[u8]) -> (s: String)
    requires
        bytes@.len() / 3 * 4 + 4 <= usize::MAX,
    ensures
        s@ == base64_standard(bytes@),
        s@.len() == (bytes@.len() + 2) / 3 * 4,
{
    base64::prelude::BASE64_STANDARD.encode(bytes)
}

/// A fresh random (version 4) UUID in its hyphenated lowercase form, as
/// `uuid::Uuid` writes it.
fn new_boundary() -> (s: String)
    ensures
        exists|x: u128| is_v4_uuid(x) && s@ == #[trigger] uuid_text(x),
{
    let x = new_v4_uuid();
    let s = uuid_to_string(x);
    proof {
        assert(is_v4_uuid(x) && s@ == uuid_text(x));
    }
    s
}

/// `a + b + c` as text.
fn join3(a: &str, b: &str, c: &str) -> (s: String)
    ensures
        s@ == a@ + b@ + c@,
{
    let mut s = String::from_str(a);
    s.append(b);
    s.append(c);
    s
}

/// Why a mail could not be composed.
#[derive(Debug)]
pub enum MailError {
    /// An attachment not given as `type/subtype/path`; it carries the text.
    WrongFormat(String),
}

impl MailError {
    /// The message that tells the user why.
    pub open spec fn message(&self) -> Seq<char> {
        match self {
            MailError::WrongFormat(raw) => "wrong attachment format: "@ + raw@,
        }
    }

    /// The message that tells the user why.
    pub fn text(&self) -> (s: String)
        ensures
            s@ == self.message(),
    {
        match self {
            MailError::WrongFormat(raw) => {
                let mut s = String::from_str("wrong attachment format: ");
                s.append(raw.as_str());
                s
            },
        }
    }
}

pub struct Credentials {
    email: String,
    password: String,
}

/// The bytes that `AUTH PLAIN` encodes: a zero byte, the address, a zero
/// byte, the password.
pub open spec fn plain_auth(email: Seq<char>, password: Seq<char>) -> Seq<u8> {
    seq![0u8] + encode_utf8(email) + seq![0u8] + encode_utf8(password)
}

impl Credentials {
    pub closed spec fn email_view(&self) -> Seq<char> {
        self.email@
    }

    pub closed spec fn password_view(&self) -> Seq<char> {
        self.password@
    }

    pub fn new(email: String, password: String) -> (c: Self)
        ensures
            c.email_view() == email@,
            c.password_view() == password@,
    {
        Self { email, password }
    }

    /// The domain this client greets the server with.
    pub fn domain(&self) -> (d: Result<&'static str, MailError>)
        ensures
            d matches Ok(s) && s@ == "spbu.ru"@,
    {
        Ok("spbu.ru")
    }

    /// The base64 text sent after `AUTH PLAIN`.
    pub fn encode(&self) -> (s: String)
        requires
            plain_auth(self.email_view(), self.password_view()).len() / 3 * 4 + 4 <= usize::MAX,
        ensures
            s@ == base64_standard(plain_auth(self.email_view(), self.password_view())),
    {
        let mut bytes: Vec<u8> = Vec::new();
        bytes.push(0);
        let e = self.email.as_str().as_bytes();
        let p = self.password.as_str().as_bytes();
        append_bytes(&mut bytes, e);
        bytes.push(0);
        append_bytes(&mut bytes, p);
        proof {
            assert(bytes@ =~= plain_auth(self.email@, self.password@));
        }
        base64_encode(bytes.as_slice())
    }
}

/// Appends `src` to `dst`.
fn append_bytes(dst: &mut Vec<u8>, src: &[u8])
    ensures
        final(dst)@ == old(dst)@ + src@,
{
    let mut i: usize = 0;
    while i < src.len()
        invariant
            i <= src@.len(),
            dst@ == old(dst)@ + src@.subrange(0, i as int),
        decreases src@.len() - i,
    {
        dst.push(src[i]);
        i = i + 1;
        proof {
            assert(dst@ =~= old(dst)@ + src@.subrange(0, i as int));
        }
    }
    proof {
        assert(src@.subrange(0, i as int) =~= src@);
    }
}

pub struct Mailbox {
    from: Option<String>,
    email: String,
}

/// How a mailbox is written in a header: the name and a space if there is
/// one, then the address in angle brackets.
pub open spec fn mailbox_text(from: Option<Seq<char>>, email: Seq<char>) -> Seq<char> {
    match from {
        Some(name) => name + " "@ + "<"@ + email + ">"@,
        None => "<"@ + email + ">"@,
    }
}

impl Mailbox {
    pub closed spec fn name_view(&self) -> Option<Seq<char>> {
        match self.from {
            Some(n) => Some(n@),
            None => None,
        }
    }

    pub closed spec fn email_view(&self) -> Seq<char> {
        self.email@
    }

    pub fn anonymous(email: String) -> (m: Self)
        ensures
            m.name_view() is None,
            m.email_view() == email@,
    {
        Self { from: None, email }
    }

    pub fn named(name: String, email: String) -> (m: Self)
        ensures
            m.name_view() == Some(name@),
            m.email_view() == email@,
    {
        Self { from: Some(name), email }
    }

    pub fn email(&self) -> (e: &str)
        ensures
            e@ == self.email_view(),
    {
        self.email.as_str()
    }

    pub fn to_string(&self) -> (s: String)
        ensures
            s@ == mailbox_text(self.name_view(), self.email_view()),
    {
        let tail = join3("<", self.email.as_str(), ">");
        match &self.from {
            Some(name) => {
                let s = join3(name.as_str(), " ", tail.as_str());
                proof {
                    assert(s@ =~= mailbox_text(self.name_view(), self.email_view()));
                }
                s
            },
            None => tail,
        }
    }
}

/// The headers this client writes.
#[derive(Clone, Copy, PartialEq, Eq, Structural, Debug)]
pub enum Header {
    From,
    To,
    Subject,
    MimeVersion,
    ContentDisposition,
    ContentTransferEncoding,
    ContentType,
}

pub open spec fn header_name(h: Header) -> Seq<char> {
    match h {
        Header::From => "From"@,
        Header::To => "To"@,
        Header::Subject => "Subject"@,
        Header::MimeVersion => "MIME-Version"@,
        Header::ContentDisposition => "Content-Disposition"@,
        Header::ContentTransferEncoding => "Content-Transfer-Encoding"@,
        Header::ContentType => "Content-Type"@,
    }
}

/// A header line: the name, a colon and a space, the contents, CRLF.
pub open spec fn header_line(h: Header, contents: Seq<char>) -> Seq<char> {
    header_name(h) + ": "@ + contents + "\r\n"@
}

impl Header {
    pub fn name(&self) -> (s: &'static str)
        ensures
            s@ == header_name(*self),
    {
        match self {
            Header::From => "From",
            Header::To => "To",
            Header::Subject => "Subject",
            Header::MimeVersion => "MIME-Version",
            Header::ContentDisposition => "Content-Disposition",
            Header::ContentTransferEncoding => "Content-Transfer-Encoding",
            Header::ContentType => "Content-Type",
        }
    }

    pub fn to_string(&self) -> (s: String)
        ensures
            s@ == header_name(*self),
    {
        String::from_str(self.name())
    }

    /// The line that sends this header with `contents`.
    pub fn send_with(&self, contents: &str) -> (s: String)
        ensures
            s@ == header_line(*self, contents@),
    {
        let mut s = join3(self.name(), ": ", contents);
        s.append("\r\n");
        s
    }
}

/// The SMTP commands this client sends.
#[derive(Clone, Copy, PartialEq, Eq, Structural, Debug)]
pub enum Command {
    Ehlo,
    Auth,
    MailFrom,
    RcptTo,
    Data,
    Quit,
}

pub open spec fn command_name(c: Command) -> Seq<char> {
    match c {
        Command::Ehlo => "EHLO"@,
        Command::Auth => "AUTH PLAIN"@,
        Command::MailFrom => "MAIL FROM"@,
        Command::RcptTo => "RCPT TO"@,
        Command::Data => "DATA"@,
        Command::Quit => "QUIT"@,
    }
}

impl Command {
    pub fn name(&self) -> (s: &'static str)
        ensures
            s@ == command_name(*self),
    {
        match self {
            Command::Ehlo => "EHLO",
            Command::Auth => "AUTH PLAIN",
            Command::MailFrom => "MAIL FROM",
            Command::RcptTo => "RCPT TO",
            Command::Data => "DATA",
            Command::Quit => "QUIT",
        }
    }

    pub fn to_string(&self) -> (s: String)
        ensures
            s@ == command_name(*self),
    {
        String::from_str(self.name())
    }

    /// The command followed by a space and `contents`.
    pub fn send_with(&self, contents: &str) -> (s: String)
        ensures
            s@ == command_name(*self) + " "@ + contents@,
    {
        join3(self.name(), " ", contents)
    }

    /// The command followed by a colon and `contents` in angle brackets.
    pub fn send_with_path(&self, contents: &str) -> (s: String)
        ensures
            s@ == command_name(*self) + ":<"@ + contents@ + ">"@,
    {
        let mut s = join3(self.name(), ":<", contents);
        s.append(">");
        s
    }

    /// The command alone.
    pub fn send(&self) -> (s: String)
        ensures
            s@ == command_name(*self),
    {
        self.to_string()
    }
}

/// Whether `line` ends a server reply: its fourth byte is a space (a
/// continued reply has a hyphen there).
pub fn last_line(line: &str) -> (last: bool)
    ensures
        last == (line.spec_bytes().len() > 3 && line.spec_bytes()[3] == 32u8),
{
    let bytes = line.as_bytes();
    bytes.len() > 3 && bytes[3] == 32u8
}

/// The first position at or after `from` where `s` holds `c`.
pub fn find_char(s: &str, c: char, from: usize) -> (r: Option<usize>)
    requires
        from <= s@.len(),
    ensures
        r matches Some(i) ==> from <= i < s@.len() && s@[i as int] == c && forall|j: int|
            from <= j < i ==> s@[j] != c,
        r is None ==> forall|j: int| from <= j < s@.len() ==> s@[j] != c,
{
    let n = s.unicode_len();
    let mut i = from;
    while i < n
        invariant
            n == s@.len(),
            from <= i <= n,
            forall|j: int| from <= j < i ==> s@[j] != c,
        decreases n - i,
    {
        if s.get_char(i) == c {
            return Some(i);
        }
        i = i + 1;
    }
    None
}

/// The line break that separates a part's headers from what precedes it.
pub fn new_line() -> (s: String)
    ensures
        s@ == "\r\n"@,
{
    String::from_str("\r\n")
}

/// The text that opens a part: a line break, two hyphens, the boundary,
/// CRLF.
pub open spec fn boundary_text(boundary: Seq<char>) -> Seq<char> {
    "\r\n"@ + "--"@ + boundary + "\r\n"@
}

/// The text that closes the multipart body and the mail data.
pub open spec fn final_boundary_text(boundary: Seq<char>) -> Seq<char> {
    "\r\n"@ + "--"@ + boundary + "--\r\n.\r\n"@
}

pub fn send_boundary(boundary: &str) -> (s: String)
    ensures
        s@ == boundary_text(boundary@),
{
    let mut s = join3("\r\n", "--", boundary);
    s.append("\r\n");
    s
}

pub fn send_final_boundary(boundary: &str) -> (s: String)
    ensures
        s@ == final_boundary_text(boundary@),
{
    let mut s = join3("\r\n", "--", boundary);
    s.append("--\r\n.\r\n");
    s
}

/// A piece of the mail data: text written as it is, or the file at a path
/// written as base64 lines.
pub enum Part {
    Text(String),
    File(String),
}

/// What a part stands for.
pub enum PartView {
    Text(Seq<char>),
    File(Seq<char>),
}

impl View for Part {
    type V = PartView;

    open spec fn view(&self) -> PartView {
        match self {
            Part::Text(t) => PartView::Text(t@),
            Part::File(f) => PartView::File(f@),
        }
    }
}

/// The views of `parts`, in order.
pub open spec fn part_views(parts: Seq<Part>) -> Seq<PartView> {
    parts.map_values(|p: Part| p@)
}

pub struct Attachment {
    mime: String,
    file: String,
}

/// `s` has exactly one slash.
pub open spec fn one_slash(s: Seq<char>) -> bool {
    exists|i: int|
        0 <= i < s.len() && s[i] == '/' && forall|j: int| 0 <= j < s.len() && j != i ==> s[j] != '/'
}

/// `s` has no slash.
pub open spec fn no_slash(s: Seq<char>) -> bool {
    forall|j: int| 0 <= j < s.len() ==> s[j] != '/'
}

/// `mime` and `file` are what `raw` holds before and after its second
/// slash, the first and second slashes standing at `i1` and `i2`.
pub open spec fn split_at_slashes(raw: Seq<char>, i1: int, i2: int, mime: Seq<char>, file: Seq<char>) -> bool {
    &&& 0 <= i1 < i2 < raw.len()
    &&& raw[i1] == '/'
    &&& raw[i2] == '/'
    &&& forall|j: int| 0 <= j < i2 && j != i1 ==> raw[j] != '/'
    &&& mime == raw.subrange(0, i2)
    &&& file == raw.subrange(i2 + 1, raw.len() as int)
}

/// An attachment written as `type/subtype/path`, with no slash in the type
/// or the subtype, reads back as media type `type/subtype` and that path.
pub proof fn lemma_attachment_text_round_trip(typ: Seq<char>, subtype: Seq<char>, path: Seq<char>)
    requires
        no_slash(typ),
        no_slash(subtype),
    ensures
        ({
            let raw = typ + "/"@ + subtype + "/"@ + path;
            &&& !no_slash(raw)
            &&& !one_slash(raw)
            &&& exists|i1: int, i2: int| split_at_slashes(raw, i1, i2, typ + "/"@ + subtype, path)
            &&& forall|i1: int, i2: int, mime: Seq<char>, file: Seq<char>|
                #[trigger] split_at_slashes(raw, i1, i2, mime, file) ==> mime == typ + "/"@ + subtype
                    && file == path
        }),
{
    reveal_strlit("/");
    let raw = typ + "/"@ + subtype + "/"@ + path;
    let a = typ.len() as int;
    let b = a + 1 + subtype.len();
    assert(raw[a] == '/');
    assert(raw[b] == '/');
    assert forall|j: int| 0 <= j < b && j != a implies raw[j] != '/' by {
        if j < a {
            assert(raw[j] == typ[j]);
        } else {
            assert(raw[j] == subtype[j - a - 1]);
        }
    }
    assert(raw.subrange(0, b) =~= typ + "/"@ + subtype);
    assert(raw.subrange(b + 1, raw.len() as int) =~= path);
    assert(split_at_slashes(raw, a, b, typ + "/"@ + subtype, path));
    assert(!no_slash(raw));
    assert(!one_slash(raw)) by {
        if one_slash(raw) {
            let i = choose|i: int|
                0 <= i < raw.len() && raw[i] == '/' && forall|j: int| 0 <= j < raw.len() && j != i ==> raw[j] != '/';
            if i == a {
                assert(raw[b] != '/');
            } else {
                assert(raw[a] != '/');
            }
        }
    }
    assert forall|i1: int, i2: int, mime: Seq<char>, file: Seq<char>|
        #[trigger] split_at_slashes(raw, i1, i2, mime, file) implies mime == typ + "/"@ + subtype && file == path by {
        if i1 != a {
            if i1 < a {
                assert(raw[i1] == typ[i1]);
            } else if a < i1 < b {
                assert(raw[a] != '/');
            } else {
                assert(raw[a] != '/');
            }
        }
        if i2 != b {
            if i2 < b {
                if i2 < a {
                    assert(raw[i2] == typ[i2]);
                } else if i2 > a {
                    assert(raw[i2] == subtype[i2 - a - 1]);
                }
            } else {
                assert(raw[b] != '/');
            }
        }
    }
}

/// The headers that open an attachment's part.
pub open spec fn attachment_head(mime: Seq<char>, file: Seq<char>, boundary: Seq<char>) -> Seq<char> {
    boundary_text(boundary) + header_line(
        Header::ContentDisposition,
        "inline; filename=\""@ + file + "\""@,
    ) + header_line(Header::ContentTransferEncoding, "base64"@) + header_line(
        Header::ContentType,
        mime,
    )
}

/// The parts of every attachment in order: its headers, then its file.
pub open spec fn attachments_parts(atts: Seq<Attachment>, boundary: Seq<char>) -> Seq<PartView>
    decreases atts.len(),
{
    if atts.len() == 0 {
        Seq::empty()
    } else {
        attachments_parts(atts.drop_last(), boundary) + seq![
            PartView::Text(attachment_head(atts.last().mime_view(), atts.last().file_view(), boundary)),
            PartView::File(atts.last().file_view()),
        ]
    }
}

impl Attachment {
    pub closed spec fn mime_view(&self) -> Seq<char> {
        self.mime@
    }

    pub closed spec fn file_view(&self) -> Seq<char> {
        self.file@
    }

    pub fn new(mime: String, file: String) -> (a: Self)
        ensures
            a.mime_view() == mime@,
            a.file_view() == file@,
    {
        Self { mime, file }
    }

    pub fn mime(&self) -> (m: &str)
        ensures
            m@ == self.mime_view(),
    {
        self.mime.as_str()
    }

    pub fn file(&self) -> (f: &str)
        ensures
            f@ == self.file_view(),
    {
        self.file.as_str()
    }

    /// Reads `type/subtype/path`: the media type is what comes before the
    /// second slash, the path what comes after it. Text without a slash is
    /// refused; text with exactly one is not accepted as input.
    pub fn from_str(raw: &str) -> (r: Result<Attachment, MailError>)
        requires
            !one_slash(raw@),
        ensures
            no_slash(raw@) <==> r is Err,
            r matches Err(e) ==> (e matches MailError::WrongFormat(t) && t@ == raw@),
            r matches Ok(a) ==> exists|i1: int, i2: int| #[trigger]
                split_at_slashes(raw@, i1, i2, a.mime_view(), a.file_view()),
    {
        let n = raw.unicode_len();
        match find_char(raw, '/', 0) {
            None => Err(MailError::WrongFormat(String::from_str(raw))),
            Some(i1) => {
                match find_char(raw, '/', i1 + 1) {
                    None => {
                        proof {
                            assert forall|j: int| 0 <= j < raw@.len() && j != i1 implies raw@[j] != '/' by {
                                if j > i1 as int {
                                }
                            }
                            assert(one_slash(raw@));
                        }
                        Err(MailError::WrongFormat(String::from_str(raw)))
                    },
                    Some(i2) => {
                        let mime = String::from_str(raw.substring_char(0, i2));
                        let file = String::from_str(raw.substring_char(i2 + 1, n));
                        let a = Attachment::new(mime, file);
                        proof {
                            assert(!no_slash(raw@));
                            assert(a.mime_view() =~= raw@.subrange(0, i2 as int));
                            assert(a.file_view() =~= raw@.subrange(i2 + 1, raw@.len() as int));
                            assert(split_at_slashes(raw@, i1 as int, i2 as int, a.mime_view(), a.file_view()));
                        }
                        let r: Result<Attachment, MailError> = Ok(a);
                        proof {
                            let b = r->Ok_0;
                            assert(split_at_slashes(raw@, i1 as int, i2 as int, b.mime_view(), b.file_view()));
                        }
                        r
                    },
                }
            },
        }
    }

    /// The parts of this attachment: its headers, then its file.
    pub fn send(&self, boundary: &str) -> (parts: Vec<Part>)
        ensures
            part_views(parts@) == seq![
                PartView::Text(attachment_head(self.mime_view(), self.file_view(), boundary@)),
                PartView::File(self.file_view()),
            ],
    {
        let mut head = send_boundary(boundary);
        let disposition = join3("inline; filename=\"", self.file.as_str(), "\"");
        let line = Header::ContentDisposition.send_with(disposition.as_str());
        head.append(line.as_str());
        let line = Header::ContentTransferEncoding.send_with("base64");
        head.append(line.as_str());
        let line = Header::ContentType.send_with(self.mime.as_str());
        head.append(line.as_str());
        let mut parts: Vec<Part> = Vec::new();
        parts.push(Part::Text(head));
        parts.push(Part::File(self.file.clone()));
        proof {
            assert(part_views(parts@) =~= seq![
                PartView::Text(attachment_head(self.mime_view(), self.file_view(), boundary@)),
                PartView::File(self.file_view()),
            ]);
        }
        parts
    }
}

/// The headers that open the part of the mail's text.
pub open spec fn text_head(boundary: Seq<char>) -> Seq<char> {
    boundary_text(boundary) + header_line(Header::ContentType, "text/plain; charset=utf-8"@)
        + header_line(Header::ContentTransferEncoding, "base64"@)
}

pub struct Contents {
    subject: String,
    boundary: String,
    text: String,
    attachments: Vec<Attachment>,
}

impl Contents {
    pub closed spec fn subject_view(&self) -> Seq<char> {
        self.subject@
    }

    pub closed spec fn boundary_view(&self) -> Seq<char> {
        self.boundary@
    }

    /// The path of the file that holds the mail's text.
    pub closed spec fn text_view(&self) -> Seq<char> {
        self.text@
    }

    pub closed spec fn attachments_view(&self) -> Seq<Attachment> {
        self.attachments@
    }

    /// The contents of a mail under a fresh random boundary: the text of a
    /// random (version 4) UUID.
    pub fn new(subject: String, text: String, attachments: Vec<Attachment>) -> (c: Self)
        ensures
            exists|x: u128| is_v4_uuid(x) && c.boundary_view() == #[trigger] uuid_text(x),
            c.subject_view() == subject@,
            c.text_view() == text@,
            c.attachments_view() == attachments@,
    {
        Self { subject, boundary: new_boundary(), text, attachments }
    }

    /// The contents of a mail under the given boundary.
    pub fn with_boundary(subject: String, boundary: String, text: String, attachments: Vec<Attachment>) -> (c: Self)
        ensures
            c.subject_view() == subject@,
            c.boundary_view() == boundary@,
            c.text_view() == text@,
            c.attachments_view() == attachments@,
    {
        Self { subject, boundary, text, attachments }
    }

    pub fn boundary(&self) -> (b: &str)
        ensures
            b@ == self.boundary_view(),
    {
        self.boundary.as_str()
    }

    pub fn subject(&self) -> (s: &str)
        ensures
            s@ == self.subject_view(),
    {
        self.subject.as_str()
    }

    /// The parts of the mail's text: its headers, then its file.
    pub fn send_text(&self) -> (parts: Vec<Part>)
        ensures
            part_views(parts@) == seq![
                PartView::Text(text_head(self.boundary_view())),
                PartView::File(self.text_view()),
            ],
    {
        let mut head = send_boundary(self.boundary.as_str());
        let line = Header::ContentType.send_with("text/plain; charset=utf-8");
        head.append(line.as_str());
        let line = Header::ContentTransferEncoding.send_with("base64");
        head.append(line.as_str());
        let mut parts: Vec<Part> = Vec::new();
        parts.push(Part::Text(head));
        parts.push(Part::File(self.text.clone()));
        proof {
            assert(part_views(parts@) =~= seq![
                PartView::Text(text_head(self.boundary_view())),
                PartView::File(self.text_view()),
            ]);
        }
        parts
    }

    /// The whole multipart body in order: the text, each attachment, the
    /// closing boundary.
    pub fn send(&self) -> (parts: Vec<Part>)
        ensures
            part_views(parts@) == seq![
                PartView::Text(text_head(self.boundary_view())),
                PartView::File(self.text_view()),
            ] + attachments_parts(self.attachments_view(), self.boundary_view()) + seq![
                PartView::Text(final_boundary_text(self.boundary_view())),
            ],
    {
        let mut parts = self.send_text();
        let mut i: usize = 0;
        while i < self.attachments.len()
            invariant
                i <= self.attachments@.len(),
                part_views(parts@) == seq![
                    PartView::Text(text_head(self.boundary@)),
                    PartView::File(self.text@),
                ] + attachments_parts(self.attachments@.take(i as int), self.boundary@),
            decreases self.attachments@.len() - i,
        {
            let mut more = self.attachments[i].send(self.boundary.as_str());
            let ghost before = parts@;
            let ghost added = more@;
            parts.append(&mut more);
            proof {
                assert(self.attachments@.take(i + 1).drop_last() =~= self.attachments@.take(i as int));
                assert(part_views(parts@) =~= part_views(before) + part_views(added));
            }
            i = i + 1;
        }
        let last = send_final_boundary(self.boundary.as_str());
        let ghost before = parts@;
        parts.push(Part::Text(last));
        proof {
            assert(self.attachments@.take(i as int) =~= self.attachments@);
            assert(part_views(parts@) =~= part_views(before) + seq![
                PartView::Text(final_boundary_text(self.boundary@)),
            ]);
        }
        parts
    }
}

pub struct Message {
    from: Mailbox,
    to: Mailbox,
    contents: Contents,
}

/// The mail's own headers.
pub open spec fn message_headers(from: Seq<char>, to: Seq<char>, subject: Seq<char>, boundary: Seq<char>) -> Seq<char> {
    header_line(Header::From, from) + header_line(Header::To, to) + header_line(
        Header::Subject,
        subject,
    ) + header_line(Header::MimeVersion, "1.0"@) + header_line(
        Header::ContentType,
        "multipart/mixed; boundary="@ + boundary,
    )
}

impl Message {
    pub closed spec fn from_view(&self) -> Mailbox {
        self.from
    }

    pub closed spec fn to_view(&self) -> Mailbox {
        self.to
    }

    pub closed spec fn contents_view(&self) -> Contents {
        self.contents
    }

    pub fn new(from: Mailbox, to: Mailbox, contents: Contents) -> (m: Self)
        ensures
            m.from_view() == from,
            m.to_view() == to,
            m.contents_view() == contents,
    {
        Self { from, to, contents }
    }

    /// The mail data: the headers as a text part, then the body's parts.
    pub fn send(&self) -> (parts: Vec<Part>)
        ensures
            part_views(parts@) == seq![PartView::Text(self.headers_view())] + seq![
                PartView::Text(text_head(self.contents_view().boundary_view())),
                PartView::File(self.contents_view().text_view()),
            ] + attachments_parts(
                self.contents_view().attachments_view(),
                self.contents_view().boundary_view(),
            ) + seq![PartView::Text(final_boundary_text(self.contents_view().boundary_view()))],
    {
        let mut parts: Vec<Part> = Vec::new();
        parts.push(Part::Text(self.headers()));
        let mut body = self.contents.send();
        let ghost head = parts@;
        let ghost added = body@;
        parts.append(&mut body);
        proof {
            assert(part_views(parts@) =~= part_views(head) + part_views(added));
        }
        parts
    }

    pub open spec fn headers_view(&self) -> Seq<char> {
        message_headers(
            mailbox_text(self.from_view().name_view(), self.from_view().email_view()),
            mailbox_text(self.to_view().name_view(), self.to_view().email_view()),
            self.contents_view().subject_view(),
            self.contents_view().boundary_view(),
        )
    }

    pub fn headers(&self) -> (s: String)
        ensures
            s@ == self.headers_view(),
    {
        let from = self.from.to_string();
        let mut s = Header::From.send_with(from.as_str());
        let to = self.to.to_string();
        let line = Header::To.send_with(to.as_str());
        s.append(line.as_str());
        let line = Header::Subject.send_with(self.contents.subject.as_str());
        s.append(line.as_str());
        let line = Header::MimeVersion.send_with("1.0");
        s.append(line.as_str());
        let mut kind = String::from_str("multipart/mixed; boundary=");
        kind.append(self.contents.boundary.as_str());
        let line = Header::ContentType.send_with(kind.as_str());
        s.append(line.as_str());
        proof {
            assert(s@ =~= self.headers_view());
        }
        s
    }

    pub fn from_email(&self) -> (e: &str)
        ensures
            e@ == self.from_view().email_view(),
    {
        self.from.email()
    }

    pub fn to_email(&self) -> (e: &str)
        ensures
            e@ == self.to_view().email_view(),
    {
        self.to.email()
    }
}

/// The number of bytes that one base64 line of 76 characters holds.
pub const LINE_BYTES: usize = 57;

/// The full lines of `s`: CRLF, then the base64 of each whole 57-byte
/// chunk, for every whole chunk in order.
pub open spec fn full_lines(s: Seq<u8>) -> Seq<char>
    decreases s.len(),
{
    if s.len() < LINE_BYTES {
        Seq::empty()
    } else {
        "\r\n"@ + base64_standard(s.subrange(0, LINE_BYTES as int)) + full_lines(
            s.subrange(LINE_BYTES as int, s.len() as int),
        )
    }
}

/// What is left of `s` after its whole chunks.
pub open spec fn chunk_rest(s: Seq<u8>) -> Seq<u8>
    decreases s.len(),
{
    if s.len() < LINE_BYTES {
        s
    } else {
        chunk_rest(s.subrange(LINE_BYTES as int, s.len() as int))
    }
}

/// The last line: CRLF, the base64 of what is left, CRLF.
pub open spec fn last_lines(rest: Seq<u8>) -> Seq<char> {
    "\r\n"@ + base64_standard(rest) + "\r\n"@
}

/// A whole file as it goes into the mail: its full lines, then its last.
pub open spec fn encoded_file(s: Seq<u8>) -> Seq<char> {
    full_lines(s) + last_lines(chunk_rest(s))
}

proof fn lemma_chunk_rest_short(s: Seq<u8>)
    ensures
        chunk_rest(s).len() < LINE_BYTES,
    decreases s.len(),
{
    if s.len() >= LINE_BYTES {
        lemma_chunk_rest_short(s.subrange(LINE_BYTES as int, s.len() as int));
    }
}

/// Encoding `a` and then the rest of `a` followed by `b` gives the lines of
/// `a + b`: the lines of a file do not depend on how it was read.
pub proof fn lemma_full_lines_concat(a: Seq<u8>, b: Seq<u8>)
    ensures
        full_lines(a) + full_lines(chunk_rest(a) + b) == full_lines(a + b),
        chunk_rest(chunk_rest(a) + b) == chunk_rest(a + b),
    decreases a.len(),
{
    if a.len() < LINE_BYTES {
        assert(full_lines(a) =~= Seq::<char>::empty());
        assert(full_lines(a) + full_lines(chunk_rest(a) + b) =~= full_lines(a + b));
    } else {
        let tail = a.subrange(LINE_BYTES as int, a.len() as int);
        lemma_full_lines_concat(tail, b);
        assert((a + b).subrange(0, LINE_BYTES as int) =~= a.subrange(0, LINE_BYTES as int));
        assert((a + b).subrange(LINE_BYTES as int, (a + b).len() as int) =~= tail + b);
        assert(full_lines(a) + full_lines(chunk_rest(a) + b) =~= full_lines(a + b));
    }
}

/// A base64 encoder that takes a file in pieces and gives its lines as soon
/// as they are whole.
pub struct EncodedFile {
    pending: Vec<u8>,
}

impl View for EncodedFile {
    /// The bytes read but not yet written.
    type V = Seq<u8>;

    closed spec fn view(&self) -> Seq<u8> {
        self.pending@
    }
}

impl EncodedFile {
    /// What is left over is always shorter than a line.
    #[verifier::type_invariant]
    closed spec fn pending_short(self) -> bool {
        self.pending@.len() < LINE_BYTES
    }

    pub fn new() -> (e: Self)
        ensures
            e@ == Seq::<u8>::empty(),
    {
        EncodedFile { pending: Vec::new() }
    }

    /// Takes the next piece of the file and gives the lines now whole.
    pub fn chunked_encode(&mut self, input: &[u8]) -> (lines: String)
        requires
            old(self)@.len() + input@.len() <= usize::MAX,
        ensures
            lines@ == full_lines(old(self)@ + input@),
            final(self)@ == chunk_rest(old(self)@ + input@),
            final(self)@.len() < LINE_BYTES,
            lines@.len() == (old(self)@.len() + input@.len()) / 57 * 78,
    {
        let mut data: Vec<u8> = Vec::new();
        append_bytes(&mut data, self.pending.as_slice());
        append_bytes(&mut data, input);
        let ghost all = data@;
        let mut lines = String::new();
        let mut at: usize = 0;
        let ghost mut k: int = 0;
        proof {
            assert(all.subrange(0, all.len() as int) =~= all);
            assert(lines@ + full_lines(all) =~= full_lines(all));
            reveal_strlit("\r\n");
        }
        while data.len() - at >= LINE_BYTES
            invariant
                data@ == all,
                at <= data@.len(),
                0 <= k,
                at == 57 * k,
                lines@.len() == 78 * k,
                lines@ + full_lines(all.subrange(at as int, all.len() as int)) == full_lines(all),
                chunk_rest(all.subrange(at as int, all.len() as int)) == chunk_rest(all),
            decreases data@.len() - at,
        {
            let chunk = vstd::slice::slice_subrange(data.as_slice(), at, at + LINE_BYTES);
            let encoded = base64_encode(chunk);
            let ghost before = lines@;
            let ghost rest = all.subrange(at as int, all.len() as int);
            lines.append("\r\n");
            lines.append(encoded.as_str());
            proof {
                assert(rest.subrange(0, LINE_BYTES as int) =~= chunk@);
                assert(rest.subrange(LINE_BYTES as int, rest.len() as int) =~= all.subrange(
                    at + LINE_BYTES,
                    all.len() as int,
                ));
                assert(lines@ =~= before + "\r\n"@ + base64_standard(chunk@));
                reveal_strlit("\r\n");
                k = k + 1;
            }
            at = at + LINE_BYTES;
        }
        let rest = vstd::slice::slice_to_vec(vstd::slice::slice_subrange(data.as_slice(), at, data.len()));
        proof {
            let r = all.subrange(at as int, all.len() as int);
            assert(rest@ =~= r);
            assert(full_lines(r) =~= Seq::<char>::empty());
            assert(lines@ =~= full_lines(all));
            lemma_chunk_rest_short(all);
            assert(all.len() / 57 == k) by (nonlinear_arith)
                requires
                    57 * k <= all.len(),
                    all.len() - 57 * k < 57,
                    0 <= k,
            ;
        }
        self.pending = rest;
        lines
    }

    /// The last line, once the whole file was taken.
    pub fn encode_remainder(&self) -> (lines: String)
        ensures
            self@.len() < LINE_BYTES,
            lines@ == last_lines(self@),
    {
        proof {
            use_type_invariant(self);
        }
        let encoded = base64_encode(self.pending.as_slice());
        join3("\r\n", encoded.as_str(), "\r\n")
    }
}

/// Taking a file in two pieces and then finishing gives the encoding of
/// the whole file.
pub proof fn lemma_two_pieces_encode_file(a: Seq<u8>, b: Seq<u8>)
    ensures
        full_lines(a) + full_lines(chunk_rest(a) + b) + last_lines(chunk_rest(chunk_rest(a) + b))
            == encoded_file(a + b),
{
    lemma_full_lines_concat(a, b);
}

pub struct Smtp {
    host: String,
    server: String,
    credentials: Credentials,
}

impl Smtp {
    pub closed spec fn host_view(&self) -> Seq<char> {
        self.host@
    }

    pub closed spec fn server_view(&self) -> Seq<char> {
        self.server@
    }

    pub closed spec fn credentials_view(&self) -> Credentials {
        self.credentials
    }

    pub fn new(host: String, server: String, email: String, password: String) -> (s: Self)
        ensures
            s.host_view() == host@,
            s.server_view() == server@,
            s.credentials_view().email_view() == email@,
            s.credentials_view().password_view() == password@,
    {
        Self { host, server, credentials: Credentials::new(email, password) }
    }

    pub fn host(&self) -> (h: &str)
        ensures
            h@ == self.host_view(),
    {
        self.host.as_str()
    }

    pub fn server(&self) -> (s: &str)
        ensures
            s@ == self.server_view(),
    {
        self.server.as_str()
    }

    /// The commands that open a session for `message`, in order; each is
    /// sent and answered before the next.
    pub fn start_session(&self, message: &Message) -> (commands: Vec<String>)
        requires
            plain_auth(self.credentials_view().email_view(), self.credentials_view().password_view()).len()
                / 3 * 4 + 4 <= usize::MAX,
        ensures
            commands@.len() == 5,
            commands@[0]@ == command_name(Command::Ehlo) + " "@ + "spbu.ru"@,
            commands@[1]@ == command_name(Command::Auth) + " "@ + base64_standard(
                plain_auth(self.credentials_view().email_view(), self.credentials_view().password_view()),
            ),
            commands@[2]@ == command_name(Command::MailFrom) + ":<"@ + message.from_view().email_view()
                + ">"@,
            commands@[3]@ == command_name(Command::RcptTo) + ":<"@ + message.to_view().email_view()
                + ">"@,
            commands@[4]@ == command_name(Command::Data),
    {
        let mut commands: Vec<String> = Vec::new();
        let domain = match self.credentials.domain() {
            Ok(d) => d,
            Err(_) => "spbu.ru",
        };
        commands.push(Command::Ehlo.send_with(domain));
        let auth = self.credentials.encode();
        commands.push(Command::Auth.send_with(auth.as_str()));
        commands.push(Command::MailFrom.send_with_path(message.from_email()));
        commands.push(Command::RcptTo.send_with_path(message.to_email()));
        commands.push(Command::Data.send());
        commands
    }

    /// The command that closes a session.
    pub fn finish_session(&self) -> (command: String)
        ensures
            command@ == command_name(Command::Quit),
    {
        Command::Quit.send()
    }
}

/// Where and as whom mail is sent.
pub struct MailConfig {
    pub smtp: String,
    pub port: u16,
    pub email: String,
    pub password: String,
    pub from: String,
}

impl MailConfig {
    /// The name of the mail server.
    pub fn host(&self) -> (h: String)
        ensures
            h@ == self.smtp@,
    {
        self.smtp.clone()
    }

    /// The server and port to connect to, as `host:port`.
    pub fn smtp(&self) -> (s: String)
        ensures
            s@ == self.smtp@ + ":"@ + crate::text::decimal(self.port as nat),
    {
        let mut s = self.smtp.clone();
        s.append(":");
        let p = crate::text::decimal_text(self.port as u128);
        s.append(p.as_str());
        s
    }

    /// The sender's mailbox: the configured name and address.
    pub fn from(&self) -> (m: Mailbox)
        ensures
            m.name_view() == Some(self.from@),
            m.email_view() == self.email@,
    {
        Mailbox::named(self.from.clone(), self.email.clone())
    }

    /// The transport these settings describe.
    pub fn transport(&self) -> (t: Smtp)
        ensures
            t.host_view() == self.smtp@,
            t.server_view() == self.smtp@ + ":"@ + crate::text::decimal(self.port as nat),
            t.credentials_view().email_view() == self.email@,
            t.credentials_view().password_view() == self.password@,
    {
        Smtp::new(self.host(), self.smtp(), self.email.clone(), self.password.clone())
    }
}

} // verus!
