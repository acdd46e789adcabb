//! Replies to the view's requests for local resources: the MIME type that a
//! file's extension calls for, and the reply built from what reading it gave.
use vstd::prelude::*;

verus! {

/// Index of the last `'.'` in `s`, or -1 where there is none.
pub open spec fn last_dot(s: Seq<char>) -> int
    decreases s.len(),
{
    if s.len() == 0 {
        -1
    } else if s.last() == '.' {
        s.len() - 1
    } else {
        last_dot(s.drop_last())
    }
}

/// What follows the last `'.'` of `s`; the whole of `s` where it has none.
pub open spec fn extension_of(s: Seq<char>) -> Seq<char> {
    s.subrange(last_dot(s) + 1, s.len() as int)
}

/// The MIME type served for a file with extension `ext`.
pub open spec fn mime_for(ext: Seq<char>) -> Seq<char> {
    if ext == "html"@ {
        "text/html"@
    } else if ext == "css"@ {
        "text/css"@
    } else if ext == "js"@ {
        "application/javascript"@
    } else if ext == "png"@ {
        "image/png"@
    } else if ext == "jpg"@ || ext == "jpeg"@ {
        "image/jpeg"@
    } else if ext == "svg"@ {
        "image/svg+xml"@
    } else {
        "text/plain"@
    }
}

/// With no `'.'` from `i` on, the last one of `s` is the last one of `s[..i]`.
proof fn lemma_last_dot_prefix(s: Seq<char>, i: int)
    requires
        0 <= i <= s.len(),
        forall|j: int| i <= j < s.len() ==> s[j] != '.',
    ensures
        last_dot(s) == last_dot(s.subrange(0, i)),
    decreases s.len() - i,
{
    if i < s.len() {
        assert(s.drop_last() =~= s.subrange(0, s.len() - 1));
        lemma_last_dot_prefix(s.drop_last(), i);
        assert(s.drop_last().subrange(0, i) =~= s.subrange(0, i));
    } else {
        assert(s.subrange(0, i) =~= s);
    }
}

fn same_chars(a: &str, b: &str) -> (r: bool)
    ensures
        r == (a@ == b@),
{
    let n: usize = a.unicode_len();
    if n != b.unicode_len() {
        return false;
    }
    let mut i: usize = 0;
    while i < n
        invariant
            n == a@.len() == b@.len(),
            i <= n,
            forall|j: int| 0 <= j < i ==> a@[j] == b@[j],
        decreases n - i,
    {
        if a.get_char(i) != b.get_char(i) {
            return false;
        }
        i = i + 1;
    }
    assert(a@ =~= b@);
    true
}

/// The extension of `path`: what follows its last `'.'`, or all of it.
pub fn extension(path: &str) -> (r: &str)
    ensures
        r@ == extension_of(path@),
{
    let n: usize = path.unicode_len();
    let mut i: usize = n;
    while i > 0
        invariant
            n == path@.len(),
            i <= n,
            forall|j: int| i <= j < n ==> path@[j] != '.',
        decreases i,
    {
        if path.get_char(i - 1) == '.' {
            proof {
                lemma_last_dot_prefix(path@, i as int);
                assert(path@.subrange(0, i as int).last() == '.');
            }
            return path.substring_char(i, n);
        }
        i = i - 1;
    }
    proof {
        lemma_last_dot_prefix(path@, 0);
    }
    path.substring_char(0, n)
}

/// The MIME type served for the file at `path`, by its extension.
pub fn mime_type(path: &str) -> (r: &'static str)
    ensures
        r@ == mime_for(extension_of(path@)),
{
    let ext = extension(path);
    if same_chars(ext, "html") {
        "text/html"
    } else if same_chars(ext, "css") {
        "text/css"
    } else if same_chars(ext, "js") {
        "application/javascript"
    } else if same_chars(ext, "png") {
        "image/png"
    } else if same_chars(ext, "jpg") || same_chars(ext, "jpeg") {
        "image/jpeg"
    } else if same_chars(ext, "svg") {
        "image/svg+xml"
    } else {
        "text/plain"
    }
}

/// `path` in the form `/C:...`: a drive letter behind a leading slash.
pub open spec fn is_slashed_drive_path(path: Seq<char>) -> bool {
    path.len() > 2 && path[0] == '/' && path[2] == ':'
}

/// The file path that a request path names on a system with drive letters:
/// `/C:/dir/f.html` is `C:/dir/f.html`; any other path stays as it is.
pub fn drive_path(path: &str) -> (r: &str)
    ensures
        is_slashed_drive_path(path@) ==> r@ == path@.drop_first(),
        !is_slashed_drive_path(path@) ==> r@ == path@,
{
    let n: usize = path.unicode_len();
    if n > 2 && path.get_char(0) == '/' && path.get_char(2) == ':' {
        let r = path.substring_char(1, n);
        assert(r@ =~= path@.drop_first());
        r
    } else {
        let r = path.substring_char(0, n);
        assert(r@ =~= path@);
        r
    }
}

/// The reply to a request for a local resource.
#[derive(Debug, Clone, PartialEq, Eq)]
pub struct ContentReply {
    pub status: u16,
    /// The `Content-Type` header, where one is sent.
    pub content_type: Option<&'static str>,
    pub body: Vec<u8>,
}

/// The reply to a request for the file at `path`, given what reading it
/// gave: its bytes, served with the MIME type of its extension, or a 404
/// with the body `Not Found` where it could not be read.
pub fn content_reply(path: &str, contents: Option<Vec<u8>>) -> (r: ContentReply)
    ensures
        match contents {
            Some(bytes) => r.status == 200 && r.content_type.is_some()
                && r.content_type.unwrap()@ == mime_for(extension_of(path@)) && r.body@ == bytes@,
            None => r.status == 404 && r.content_type.is_none() && r.body@ == "Not Found"@.map_values(
                |c: char| c as u8,
            ),
        },
{
    match contents {
        Some(bytes) => ContentReply { status: 200, content_type: Some(mime_type(path)), body: bytes },
        None => {
            let text = "Not Found";
            proof {
                reveal_strlit("Not Found");
            }
            let mut body: Vec<u8> = Vec::new();
            let n: usize = text.unicode_len();
            let mut i: usize = 0;
            while i < n
                invariant
                    n == text@.len(),
                    i <= n,
                    text@ == "Not Found"@,
                    body@ == text@.subrange(0, i as int).map_values(|c: char| c as u8),
                decreases n - i,
            {
                body.push(text.get_char(i) as u8);
                i = i + 1;
                assert(body@ =~= text@.subrange(0, i as int).map_values(|c: char| c as u8));
            }
            assert(text@.subrange(0, n as int) =~= text@);
            ContentReply { status: 404, content_type: None, body }
        },
    }
}

} // verus!
