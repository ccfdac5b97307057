//! Content types and answers for static files.
use vstd::prelude::*;
use crate::router::{segments, split_path};
use crate::text::{chars_of, push_str, seq_starts_with, str_equal, string_from_char_range, strings_view};
use crate::{headers_view, Response};

verus! {

broadcast use vstd::string::group_string_axioms;

/// The last index below `end` holding `c`, or -1.
pub open spec fn rscan_char(p: Seq<char>, c: char, end: int) -> int
    decreases end,
{
    if end <= 0 {
        -1
    } else if p[end - 1] == c {
        end - 1
    } else {
        rscan_char(p, c, end - 1)
    }
}

pub proof fn lemma_rscan_char(p: Seq<char>, c: char, end: int)
    requires
        0 <= end <= p.len(),
    ensures
        -1 <= rscan_char(p, c, end) < end,
        rscan_char(p, c, end) >= 0 ==> p[rscan_char(p, c, end)] == c,
    decreases end,
{
    if end > 0 && p[end - 1] != c {
        lemma_rscan_char(p, c, end - 1);
    }
}

fn rfind_char(p: &[char], c: char, end: usize) -> (r: Option<usize>)
    requires
        end <= p@.len(),
    ensures
        match r {
            Some(k) => rscan_char(p@, c, end as int) == k && k < end,
            None => rscan_char(p@, c, end as int) == -1,
        },
{
    let mut e = end;
    while e > 0
        invariant
            e <= end <= p@.len(),
            rscan_char(p@, c, end as int) == rscan_char(p@, c, e as int),
        decreases e,
    {
        if p[e - 1] == c {
            return Some(e - 1);
        }
        e = e - 1;
    }
    None
}

/// The file name of the part `p[..end]` of a path, as `Path::file_name` gives it:
/// the last `/`-separated component that is neither empty nor `.`; none when
/// that component is `..` or there is none.
pub open spec fn file_name_upto(p: Seq<char>, end: int) -> Option<Seq<char>>
    decreases end,
{
    if end <= 0 || end > p.len() {
        None
    } else {
        let k = rscan_char(p, '/', end);
        let seg = p.subrange(k + 1, end);
        proof {
            lemma_rscan_char(p, '/', end);
        }
        if seg.len() == 0 || seg == seq!['.'] {
            if k >= 0 {
                file_name_upto(p, k)
            } else {
                None
            }
        } else if seg == seq!['.', '.'] {
            None
        } else {
            Some(seg)
        }
    }
}

/// The extension of a file name, as `Path::extension` gives it: after the last
/// `.`, unless that `.` is the first character or there is none.
pub open spec fn name_extension(name: Seq<char>) -> Option<Seq<char>> {
    let i = rscan_char(name, '.', name.len() as int);
    if i <= 0 {
        None
    } else {
        Some(name.subrange(i + 1, name.len() as int))
    }
}

/// The extension of a path.
pub open spec fn path_extension(p: Seq<char>) -> Option<Seq<char>> {
    match file_name_upto(p, p.len() as int) {
        Some(name) => name_extension(name),
        None => None,
    }
}

/// The extension of the file a path names.
pub fn file_extension(path: &str) -> (r: Option<String>)
    ensures
        match r {
            Some(e) => path_extension(path@) == Some(e@),
            None => path_extension(path@) is None,
        },
{
    let p = chars_of(path);
    let mut end = p.len();
    // the file name is p[lo..end]
    let mut lo: usize = 0;
    loop
        invariant
            p@ == path@,
            end <= p@.len(),
            file_name_upto(p@, p@.len() as int) == file_name_upto(p@, end as int),
        ensures
            lo <= end <= p@.len(),
            file_name_upto(p@, p@.len() as int) == Some(p@.subrange(lo as int, end as int)),
        decreases end,
    {
        if end == 0 {
            return None;
        }
        let k = rfind_char(p.as_slice(), '/', end);
        proof {
            lemma_rscan_char(p@, '/', end as int);
        }
        let start = match k {
            Some(k) => k + 1,
            None => 0,
        };
        let seg_len = end - start;
        let is_dot = seg_len == 1 && p[start] == '.';
        let is_dotdot = seg_len == 2 && p[start] == '.' && p[start + 1] == '.';
        assert(is_dot == (p@.subrange(start as int, end as int) == seq!['.'])) by {
            assert(p@.subrange(start as int, end as int).len() == seg_len);
            assert(seq!['.'].len() == 1);
            if seg_len == 1 {
                if p@.subrange(start as int, end as int) == seq!['.'] {
                    assert(p@.subrange(start as int, end as int)[0] == p@[start as int]);
                }
                if is_dot {
                    assert(p@.subrange(start as int, end as int) =~= seq!['.']);
                }
            }
        }
        assert(is_dotdot == (p@.subrange(start as int, end as int) == seq!['.', '.'])) by {
            assert(p@.subrange(start as int, end as int).len() == seg_len);
            assert(seq!['.', '.'].len() == 2);
            if seg_len == 2 {
                if p@.subrange(start as int, end as int) == seq!['.', '.'] {
                    assert(p@.subrange(start as int, end as int)[0] == p@[start as int]);
                    assert(p@.subrange(start as int, end as int)[1] == p@[start + 1]);
                }
                if is_dotdot {
                    assert(p@.subrange(start as int, end as int) =~= seq!['.', '.']);
                }
            }
        }
        if seg_len == 0 || is_dot {
            match k {
                Some(k) => {
                    end = k;
                },
                None => {
                    return None;
                },
            }
        } else if is_dotdot {
            return None;
        } else {
            lo = start;
            break;
        }
    }
    let name = &p.as_slice()[lo..end];
    assert(file_name_upto(p@, p@.len() as int) == Some(name@));
    match rfind_char(name, '.', name.len()) {
        Some(i) => {
            if i == 0 {
                None
            } else {
                Some(string_from_char_range(name, i + 1, name.len()))
            }
        },
        None => None,
    }
}

/// The content type served for an extension.
pub open spec fn mime_for(ext: Seq<char>) -> Seq<char> {
    if ext == "html"@ || ext == "htm"@ {
        "text/html;charset=utf-8"@
    } else if ext == "css"@ {
        "text/css;charset=utf-8"@
    } else if ext == "js"@ {
        "application/javascript;charset=utf-8"@
    } else if ext == "json"@ {
        "application/json"@
    } else if ext == "png"@ {
        "image/png"@
    } else if ext == "jpg"@ || ext == "jpeg"@ {
        "image/jpeg"@
    } else if ext == "gif"@ {
        "image/gif"@
    } else if ext == "svg"@ {
        "image/svg+xml"@
    } else if ext == "ico"@ {
        "image/x-icon"@
    } else if ext == "webp"@ {
        "image/webp"@
    } else if ext == "txt"@ {
        "text/plain;charset=utf-8"@
    } else if ext == "xml"@ {
        "application/xml"@
    } else if ext == "pdf"@ {
        "application/pdf"@
    } else if ext == "zip"@ {
        "application/zip"@
    } else if ext == "woff"@ {
        "font/woff"@
    } else if ext == "woff2"@ {
        "font/woff2"@
    } else if ext == "ttf"@ {
        "font/ttf"@
    } else if ext == "otf"@ {
        "font/otf"@
    } else if ext == "mp4"@ {
        "video/mp4"@
    } else if ext == "webm"@ {
        "video/webm"@
    } else if ext == "mp3"@ {
        "audio/mpeg"@
    } else if ext == "wav"@ {
        "audio/wav"@
    } else if ext == "wasm"@ {
        "application/wasm"@
    } else {
        "application/octet-stream"@
    }
}

/// The registered content types: each file extension with the type served for it.
pub open spec fn mime_table() -> Seq<(Seq<char>, Seq<char>)> {
    seq![
        ("html"@, "text/html;charset=utf-8"@),
        ("htm"@, "text/html;charset=utf-8"@),
        ("css"@, "text/css;charset=utf-8"@),
        ("js"@, "application/javascript;charset=utf-8"@),
        ("json"@, "application/json"@),
        ("png"@, "image/png"@),
        ("jpg"@, "image/jpeg"@),
        ("jpeg"@, "image/jpeg"@),
        ("gif"@, "image/gif"@),
        ("svg"@, "image/svg+xml"@),
        ("ico"@, "image/x-icon"@),
        ("webp"@, "image/webp"@),
        ("txt"@, "text/plain;charset=utf-8"@),
        ("xml"@, "application/xml"@),
        ("pdf"@, "application/pdf"@),
        ("zip"@, "application/zip"@),
        ("woff"@, "font/woff"@),
        ("woff2"@, "font/woff2"@),
        ("ttf"@, "font/ttf"@),
        ("otf"@, "font/otf"@),
        ("mp4"@, "video/mp4"@),
        ("webm"@, "video/webm"@),
        ("mp3"@, "audio/mpeg"@),
        ("wav"@, "audio/wav"@),
        ("wasm"@, "application/wasm"@)
    ]
}

/// Each extension of the table is served with its listed type, and every
/// other extension (none at all included) as `application/octet-stream`.
pub proof fn lemma_mime_table(ext: Seq<char>)
    ensures
        forall|i: int| 0 <= i < mime_table().len() ==> mime_for(#[trigger] mime_table()[i].0) == mime_table()[i].1,
        (forall|i: int| 0 <= i < mime_table().len() ==> #[trigger] mime_table()[i].0 != ext)
            ==> mime_for(ext) == "application/octet-stream"@,
{
    reveal_strlit("html");
    reveal_strlit("text/html;charset=utf-8");
    reveal_strlit("htm");
    reveal_strlit("text/html;charset=utf-8");
    reveal_strlit("css");
    reveal_strlit("text/css;charset=utf-8");
    reveal_strlit("js");
    reveal_strlit("application/javascript;charset=utf-8");
    reveal_strlit("json");
    reveal_strlit("application/json");
    reveal_strlit("png");
    reveal_strlit("image/png");
    reveal_strlit("jpg");
    reveal_strlit("image/jpeg");
    reveal_strlit("jpeg");
    reveal_strlit("image/jpeg");
    reveal_strlit("gif");
    reveal_strlit("image/gif");
    reveal_strlit("svg");
    reveal_strlit("image/svg+xml");
    reveal_strlit("ico");
    reveal_strlit("image/x-icon");
    reveal_strlit("webp");
    reveal_strlit("image/webp");
    reveal_strlit("txt");
    reveal_strlit("text/plain;charset=utf-8");
    reveal_strlit("xml");
    reveal_strlit("application/xml");
    reveal_strlit("pdf");
    reveal_strlit("application/pdf");
    reveal_strlit("zip");
    reveal_strlit("application/zip");
    reveal_strlit("woff");
    reveal_strlit("font/woff");
    reveal_strlit("woff2");
    reveal_strlit("font/woff2");
    reveal_strlit("ttf");
    reveal_strlit("font/ttf");
    reveal_strlit("otf");
    reveal_strlit("font/otf");
    reveal_strlit("mp4");
    reveal_strlit("video/mp4");
    reveal_strlit("webm");
    reveal_strlit("video/webm");
    reveal_strlit("mp3");
    reveal_strlit("audio/mpeg");
    reveal_strlit("wav");
    reveal_strlit("audio/wav");
    reveal_strlit("wasm");
    reveal_strlit("application/wasm");
    reveal_strlit("application/octet-stream");
    let t = mime_table();
    assert forall|i: int| 0 <= i < t.len() implies mime_for(#[trigger] t[i].0) == t[i].1 by {
        if i == 0 {
            assert(t[0].0 == "html"@);
            assert("html"@.len() != "htm"@.len());
            assert("html"@.len() != "css"@.len());
            assert("html"@.len() != "js"@.len());
            assert("html"@[0] != "json"@[0]);
            assert("html"@.len() != "png"@.len());
            assert("html"@.len() != "jpg"@.len());
            assert("html"@[0] != "jpeg"@[0]);
            assert("html"@.len() != "gif"@.len());
            assert("html"@.len() != "svg"@.len());
            assert("html"@.len() != "ico"@.len());
            assert("html"@[0] != "webp"@[0]);
            assert("html"@.len() != "txt"@.len());
            assert("html"@.len() != "xml"@.len());
            assert("html"@.len() != "pdf"@.len());
            assert("html"@.len() != "zip"@.len());
            assert("html"@[0] != "woff"@[0]);
            assert("html"@.len() != "woff2"@.len());
            assert("html"@.len() != "ttf"@.len());
            assert("html"@.len() != "otf"@.len());
            assert("html"@.len() != "mp4"@.len());
            assert("html"@[0] != "webm"@[0]);
            assert("html"@.len() != "mp3"@.len());
            assert("html"@.len() != "wav"@.len());
            assert("html"@[0] != "wasm"@[0]);
        }
        if i == 1 {
            assert(t[1].0 == "htm"@);
            assert("htm"@.len() != "html"@.len());
            assert("htm"@[0] != "css"@[0]);
            assert("htm"@.len() != "js"@.len());
            assert("htm"@.len() != "json"@.len());
            assert("htm"@[0] != "png"@[0]);
            assert("htm"@[0] != "jpg"@[0]);
            assert("htm"@.len() != "jpeg"@.len());
            assert("htm"@[0] != "gif"@[0]);
            assert("htm"@[0] != "svg"@[0]);
            assert("htm"@[0] != "ico"@[0]);
            assert("htm"@.len() != "webp"@.len());
            assert("htm"@[0] != "txt"@[0]);
            assert("htm"@[0] != "xml"@[0]);
            assert("htm"@[0] != "pdf"@[0]);
            assert("htm"@[0] != "zip"@[0]);
            assert("htm"@.len() != "woff"@.len());
            assert("htm"@.len() != "woff2"@.len());
            assert("htm"@[0] != "ttf"@[0]);
            assert("htm"@[0] != "otf"@[0]);
            assert("htm"@[0] != "mp4"@[0]);
            assert("htm"@.len() != "webm"@.len());
            assert("htm"@[0] != "mp3"@[0]);
            assert("htm"@[0] != "wav"@[0]);
            assert("htm"@.len() != "wasm"@.len());
        }
        if i == 2 {
            assert(t[2].0 == "css"@);
            assert("css"@.len() != "html"@.len());
            assert("css"@[0] != "htm"@[0]);
            assert("css"@.len() != "js"@.len());
            assert("css"@.len() != "json"@.len());
            assert("css"@[0] != "png"@[0]);
            assert("css"@[0] != "jpg"@[0]);
            assert("css"@.len() != "jpeg"@.len());
            assert("css"@[0] != "gif"@[0]);
            assert("css"@[0] != "svg"@[0]);
            assert("css"@[0] != "ico"@[0]);
            assert("css"@.len() != "webp"@.len());
            assert("css"@[0] != "txt"@[0]);
            assert("css"@[0] != "xml"@[0]);
            assert("css"@[0] != "pdf"@[0]);
            assert("css"@[0] != "zip"@[0]);
            assert("css"@.len() != "woff"@.len());
            assert("css"@.len() != "woff2"@.len());
            assert("css"@[0] != "ttf"@[0]);
            assert("css"@[0] != "otf"@[0]);
            assert("css"@[0] != "mp4"@[0]);
            assert("css"@.len() != "webm"@.len());
            assert("css"@[0] != "mp3"@[0]);
            assert("css"@[0] != "wav"@[0]);
            assert("css"@.len() != "wasm"@.len());
        }
        if i == 3 {
            assert(t[3].0 == "js"@);
            assert("js"@.len() != "html"@.len());
            assert("js"@.len() != "htm"@.len());
            assert("js"@.len() != "css"@.len());
            assert("js"@.len() != "json"@.len());
            assert("js"@.len() != "png"@.len());
            assert("js"@.len() != "jpg"@.len());
            assert("js"@.len() != "jpeg"@.len());
            assert("js"@.len() != "gif"@.len());
            assert("js"@.len() != "svg"@.len());
            assert("js"@.len() != "ico"@.len());
            assert("js"@.len() != "webp"@.len());
            assert("js"@.len() != "txt"@.len());
            assert("js"@.len() != "xml"@.len());
            assert("js"@.len() != "pdf"@.len());
            assert("js"@.len() != "zip"@.len());
            assert("js"@.len() != "woff"@.len());
            assert("js"@.len() != "woff2"@.len());
            assert("js"@.len() != "ttf"@.len());
            assert("js"@.len() != "otf"@.len());
            assert("js"@.len() != "mp4"@.len());
            assert("js"@.len() != "webm"@.len());
            assert("js"@.len() != "mp3"@.len());
            assert("js"@.len() != "wav"@.len());
            assert("js"@.len() != "wasm"@.len());
        }
        if i == 4 {
            assert(t[4].0 == "json"@);
            assert("json"@[0] != "html"@[0]);
            assert("json"@.len() != "htm"@.len());
            assert("json"@.len() != "css"@.len());
            assert("json"@.len() != "js"@.len());
            assert("json"@.len() != "png"@.len());
            assert("json"@.len() != "jpg"@.len());
            assert("json"@[1] != "jpeg"@[1]);
            assert("json"@.len() != "gif"@.len());
            assert("json"@.len() != "svg"@.len());
            assert("json"@.len() != "ico"@.len());
            assert("json"@[0] != "webp"@[0]);
            assert("json"@.len() != "txt"@.len());
            assert("json"@.len() != "xml"@.len());
            assert("json"@.len() != "pdf"@.len());
            assert("json"@.len() != "zip"@.len());
            assert("json"@[0] != "woff"@[0]);
            assert("json"@.len() != "woff2"@.len());
            assert("json"@.len() != "ttf"@.len());
            assert("json"@.len() != "otf"@.len());
            assert("json"@.len() != "mp4"@.len());
            assert("json"@[0] != "webm"@[0]);
            assert("json"@.len() != "mp3"@.len());
            assert("json"@.len() != "wav"@.len());
            assert("json"@[0] != "wasm"@[0]);
        }
        if i == 5 {
            assert(t[5].0 == "png"@);
            assert("png"@.len() != "html"@.len());
            assert("png"@[0] != "htm"@[0]);
            assert("png"@[0] != "css"@[0]);
            assert("png"@.len() != "js"@.len());
            assert("png"@.len() != "json"@.len());
            assert("png"@[0] != "jpg"@[0]);
            assert("png"@.len() != "jpeg"@.len());
            assert("png"@[0] != "gif"@[0]);
            assert("png"@[0] != "svg"@[0]);
            assert("png"@[0] != "ico"@[0]);
            assert("png"@.len() != "webp"@.len());
            assert("png"@[0] != "txt"@[0]);
            assert("png"@[0] != "xml"@[0]);
            assert("png"@[1] != "pdf"@[1]);
            assert("png"@[0] != "zip"@[0]);
            assert("png"@.len() != "woff"@.len());
            assert("png"@.len() != "woff2"@.len());
            assert("png"@[0] != "ttf"@[0]);
            assert("png"@[0] != "otf"@[0]);
            assert("png"@[0] != "mp4"@[0]);
            assert("png"@.len() != "webm"@.len());
            assert("png"@[0] != "mp3"@[0]);
            assert("png"@[0] != "wav"@[0]);
            assert("png"@.len() != "wasm"@.len());
        }
        if i == 6 {
            assert(t[6].0 == "jpg"@);
            assert("jpg"@.len() != "html"@.len());
            assert("jpg"@[0] != "htm"@[0]);
            assert("jpg"@[0] != "css"@[0]);
            assert("jpg"@.len() != "js"@.len());
            assert("jpg"@.len() != "json"@.len());
            assert("jpg"@[0] != "png"@[0]);
            assert("jpg"@.len() != "jpeg"@.len());
            assert("jpg"@[0] != "gif"@[0]);
            assert("jpg"@[0] != "svg"@[0]);
            assert("jpg"@[0] != "ico"@[0]);
            assert("jpg"@.len() != "webp"@.len());
            assert("jpg"@[0] != "txt"@[0]);
            assert("jpg"@[0] != "xml"@[0]);
            assert("jpg"@[0] != "pdf"@[0]);
            assert("jpg"@[0] != "zip"@[0]);
            assert("jpg"@.len() != "woff"@.len());
            assert("jpg"@.len() != "woff2"@.len());
            assert("jpg"@[0] != "ttf"@[0]);
            assert("jpg"@[0] != "otf"@[0]);
            assert("jpg"@[0] != "mp4"@[0]);
            assert("jpg"@.len() != "webm"@.len());
            assert("jpg"@[0] != "mp3"@[0]);
            assert("jpg"@[0] != "wav"@[0]);
            assert("jpg"@.len() != "wasm"@.len());
        }
        if i == 7 {
            assert(t[7].0 == "jpeg"@);
            assert("jpeg"@[0] != "html"@[0]);
            assert("jpeg"@.len() != "htm"@.len());
            assert("jpeg"@.len() != "css"@.len());
            assert("jpeg"@.len() != "js"@.len());
            assert("jpeg"@[1] != "json"@[1]);
            assert("jpeg"@.len() != "png"@.len());
            assert("jpeg"@.len() != "jpg"@.len());
            assert("jpeg"@.len() != "gif"@.len());
            assert("jpeg"@.len() != "svg"@.len());
            assert("jpeg"@.len() != "ico"@.len());
            assert("jpeg"@[0] != "webp"@[0]);
            assert("jpeg"@.len() != "txt"@.len());
            assert("jpeg"@.len() != "xml"@.len());
            assert("jpeg"@.len() != "pdf"@.len());
            assert("jpeg"@.len() != "zip"@.len());
            assert("jpeg"@[0] != "woff"@[0]);
            assert("jpeg"@.len() != "woff2"@.len());
            assert("jpeg"@.len() != "ttf"@.len());
            assert("jpeg"@.len() != "otf"@.len());
            assert("jpeg"@.len() != "mp4"@.len());
            assert("jpeg"@[0] != "webm"@[0]);
            assert("jpeg"@.len() != "mp3"@.len());
            assert("jpeg"@.len() != "wav"@.len());
            assert("jpeg"@[0] != "wasm"@[0]);
        }
        if i == 8 {
            assert(t[8].0 == "gif"@);
            assert("gif"@.len() != "html"@.len());
            assert("gif"@[0] != "htm"@[0]);
            assert("gif"@[0] != "css"@[0]);
            assert("gif"@.len() != "js"@.len());
            assert("gif"@.len() != "json"@.len());
            assert("gif"@[0] != "png"@[0]);
            assert("gif"@[0] != "jpg"@[0]);
            assert("gif"@.len() != "jpeg"@.len());
            assert("gif"@[0] != "svg"@[0]);
            assert("gif"@[0] != "ico"@[0]);
            assert("gif"@.len() != "webp"@.len());
            assert("gif"@[0] != "txt"@[0]);
            assert("gif"@[0] != "xml"@[0]);
            assert("gif"@[0] != "pdf"@[0]);
            assert("gif"@[0] != "zip"@[0]);
            assert("gif"@.len() != "woff"@.len());
            assert("gif"@.len() != "woff2"@.len());
            assert("gif"@[0] != "ttf"@[0]);
            assert("gif"@[0] != "otf"@[0]);
            assert("gif"@[0] != "mp4"@[0]);
            assert("gif"@.len() != "webm"@.len());
            assert("gif"@[0] != "mp3"@[0]);
            assert("gif"@[0] != "wav"@[0]);
            assert("gif"@.len() != "wasm"@.len());
        }
        if i == 9 {
            assert(t[9].0 == "svg"@);
            assert("svg"@.len() != "html"@.len());
            assert("svg"@[0] != "htm"@[0]);
            assert("svg"@[0] != "css"@[0]);
            assert("svg"@.len() != "js"@.len());
            assert("svg"@.len() != "json"@.len());
            assert("svg"@[0] != "png"@[0]);
            assert("svg"@[0] != "jpg"@[0]);
            assert("svg"@.len() != "jpeg"@.len());
            assert("svg"@[0] != "gif"@[0]);
            assert("svg"@[0] != "ico"@[0]);
            assert("svg"@.len() != "webp"@.len());
            assert("svg"@[0] != "txt"@[0]);
            assert("svg"@[0] != "xml"@[0]);
            assert("svg"@[0] != "pdf"@[0]);
            assert("svg"@[0] != "zip"@[0]);
            assert("svg"@.len() != "woff"@.len());
            assert("svg"@.len() != "woff2"@.len());
            assert("svg"@[0] != "ttf"@[0]);
            assert("svg"@[0] != "otf"@[0]);
            assert("svg"@[0] != "mp4"@[0]);
            assert("svg"@.len() != "webm"@.len());
            assert("svg"@[0] != "mp3"@[0]);
            assert("svg"@[0] != "wav"@[0]);
            assert("svg"@.len() != "wasm"@.len());
        }
        if i == 10 {
            assert(t[10].0 == "ico"@);
            assert("ico"@.len() != "html"@.len());
            assert("ico"@[0] != "htm"@[0]);
            assert("ico"@[0] != "css"@[0]);
            assert("ico"@.len() != "js"@.len());
            assert("ico"@.len() != "json"@.len());
            assert("ico"@[0] != "png"@[0]);
            assert("ico"@[0] != "jpg"@[0]);
            assert("ico"@.len() != "jpeg"@.len());
            assert("ico"@[0] != "gif"@[0]);
            assert("ico"@[0] != "svg"@[0]);
            assert("ico"@.len() != "webp"@.len());
            assert("ico"@[0] != "txt"@[0]);
            assert("ico"@[0] != "xml"@[0]);
            assert("ico"@[0] != "pdf"@[0]);
            assert("ico"@[0] != "zip"@[0]);
            assert("ico"@.len() != "woff"@.len());
            assert("ico"@.len() != "woff2"@.len());
            assert("ico"@[0] != "ttf"@[0]);
            assert("ico"@[0] != "otf"@[0]);
            assert("ico"@[0] != "mp4"@[0]);
            assert("ico"@.len() != "webm"@.len());
            assert("ico"@[0] != "mp3"@[0]);
            assert("ico"@[0] != "wav"@[0]);
            assert("ico"@.len() != "wasm"@.len());
        }
        if i == 11 {
            assert(t[11].0 == "webp"@);
            assert("webp"@[0] != "html"@[0]);
            assert("webp"@.len() != "htm"@.len());
            assert("webp"@.len() != "css"@.len());
            assert("webp"@.len() != "js"@.len());
            assert("webp"@[0] != "json"@[0]);
            assert("webp"@.len() != "png"@.len());
            assert("webp"@.len() != "jpg"@.len());
            assert("webp"@[0] != "jpeg"@[0]);
            assert("webp"@.len() != "gif"@.len());
            assert("webp"@.len() != "svg"@.len());
            assert("webp"@.len() != "ico"@.len());
            assert("webp"@.len() != "txt"@.len());
            assert("webp"@.len() != "xml"@.len());
            assert("webp"@.len() != "pdf"@.len());
            assert("webp"@.len() != "zip"@.len());
            assert("webp"@[1] != "woff"@[1]);
            assert("webp"@.len() != "woff2"@.len());
            assert("webp"@.len() != "ttf"@.len());
            assert("webp"@.len() != "otf"@.len());
            assert("webp"@.len() != "mp4"@.len());
            assert("webp"@[3] != "webm"@[3]);
            assert("webp"@.len() != "mp3"@.len());
            assert("webp"@.len() != "wav"@.len());
            assert("webp"@[1] != "wasm"@[1]);
        }
        if i == 12 {
            assert(t[12].0 == "txt"@);
            assert("txt"@.len() != "html"@.len());
            assert("txt"@[0] != "htm"@[0]);
            assert("txt"@[0] != "css"@[0]);
            assert("txt"@.len() != "js"@.len());
            assert("txt"@.len() != "json"@.len());
            assert("txt"@[0] != "png"@[0]);
            assert("txt"@[0] != "jpg"@[0]);
            assert("txt"@.len() != "jpeg"@.len());
            assert("txt"@[0] != "gif"@[0]);
            assert("txt"@[0] != "svg"@[0]);
            assert("txt"@[0] != "ico"@[0]);
            assert("txt"@.len() != "webp"@.len());
            assert("txt"@[0] != "xml"@[0]);
            assert("txt"@[0] != "pdf"@[0]);
            assert("txt"@[0] != "zip"@[0]);
            assert("txt"@.len() != "woff"@.len());
            assert("txt"@.len() != "woff2"@.len());
            assert("txt"@[1] != "ttf"@[1]);
            assert("txt"@[0] != "otf"@[0]);
            assert("txt"@[0] != "mp4"@[0]);
            assert("txt"@.len() != "webm"@.len());
            assert("txt"@[0] != "mp3"@[0]);
            assert("txt"@[0] != "wav"@[0]);
            assert("txt"@.len() != "wasm"@.len());
        }
        if i == 13 {
            assert(t[13].0 == "xml"@);
            assert("xml"@.len() != "html"@.len());
            assert("xml"@[0] != "htm"@[0]);
            assert("xml"@[0] != "css"@[0]);
            assert("xml"@.len() != "js"@.len());
            assert("xml"@.len() != "json"@.len());
            assert("xml"@[0] != "png"@[0]);
            assert("xml"@[0] != "jpg"@[0]);
            assert("xml"@.len() != "jpeg"@.len());
            assert("xml"@[0] != "gif"@[0]);
            assert("xml"@[0] != "svg"@[0]);
            assert("xml"@[0] != "ico"@[0]);
            assert("xml"@.len() != "webp"@.len());
            assert("xml"@[0] != "txt"@[0]);
            assert("xml"@[0] != "pdf"@[0]);
            assert("xml"@[0] != "zip"@[0]);
            assert("xml"@.len() != "woff"@.len());
            assert("xml"@.len() != "woff2"@.len());
            assert("xml"@[0] != "ttf"@[0]);
            assert("xml"@[0] != "otf"@[0]);
            assert("xml"@[0] != "mp4"@[0]);
            assert("xml"@.len() != "webm"@.len());
            assert("xml"@[0] != "mp3"@[0]);
            assert("xml"@[0] != "wav"@[0]);
            assert("xml"@.len() != "wasm"@.len());
        }
        if i == 14 {
            assert(t[14].0 == "pdf"@);
            assert("pdf"@.len() != "html"@.len());
            assert("pdf"@[0] != "htm"@[0]);
            assert("pdf"@[0] != "css"@[0]);
            assert("pdf"@.len() != "js"@.len());
            assert("pdf"@.len() != "json"@.len());
            assert("pdf"@[1] != "png"@[1]);
            assert("pdf"@[0] != "jpg"@[0]);
            assert("pdf"@.len() != "jpeg"@.len());
            assert("pdf"@[0] != "gif"@[0]);
            assert("pdf"@[0] != "svg"@[0]);
            assert("pdf"@[0] != "ico"@[0]);
            assert("pdf"@.len() != "webp"@.len());
            assert("pdf"@[0] != "txt"@[0]);
            assert("pdf"@[0] != "xml"@[0]);
            assert("pdf"@[0] != "zip"@[0]);
            assert("pdf"@.len() != "woff"@.len());
            assert("pdf"@.len() != "woff2"@.len());
            assert("pdf"@[0] != "ttf"@[0]);
            assert("pdf"@[0] != "otf"@[0]);
            assert("pdf"@[0] != "mp4"@[0]);
            assert("pdf"@.len() != "webm"@.len());
            assert("pdf"@[0] != "mp3"@[0]);
            assert("pdf"@[0] != "wav"@[0]);
            assert("pdf"@.len() != "wasm"@.len());
        }
        if i == 15 {
            assert(t[15].0 == "zip"@);
            assert("zip"@.len() != "html"@.len());
            assert("zip"@[0] != "htm"@[0]);
            assert("zip"@[0] != "css"@[0]);
            assert("zip"@.len() != "js"@.len());
            assert("zip"@.len() != "json"@.len());
            assert("zip"@[0] != "png"@[0]);
            assert("zip"@[0] != "jpg"@[0]);
            assert("zip"@.len() != "jpeg"@.len());
            assert("zip"@[0] != "gif"@[0]);
            assert("zip"@[0] != "svg"@[0]);
            assert("zip"@[0] != "ico"@[0]);
            assert("zip"@.len() != "webp"@.len());
            assert("zip"@[0] != "txt"@[0]);
            assert("zip"@[0] != "xml"@[0]);
            assert("zip"@[0] != "pdf"@[0]);
            assert("zip"@.len() != "woff"@.len());
            assert("zip"@.len() != "woff2"@.len());
            assert("zip"@[0] != "ttf"@[0]);
            assert("zip"@[0] != "otf"@[0]);
            assert("zip"@[0] != "mp4"@[0]);
            assert("zip"@.len() != "webm"@.len());
            assert("zip"@[0] != "mp3"@[0]);
            assert("zip"@[0] != "wav"@[0]);
            assert("zip"@.len() != "wasm"@.len());
        }
        if i == 16 {
            assert(t[16].0 == "woff"@);
            assert("woff"@[0] != "html"@[0]);
            assert("woff"@.len() != "htm"@.len());
            assert("woff"@.len() != "css"@.len());
            assert("woff"@.len() != "js"@.len());
            assert("woff"@[0] != "json"@[0]);
            assert("woff"@.len() != "png"@.len());
            assert("woff"@.len() != "jpg"@.len());
            assert("woff"@[0] != "jpeg"@[0]);
            assert("woff"@.len() != "gif"@.len());
            assert("woff"@.len() != "svg"@.len());
            assert("woff"@.len() != "ico"@.len());
            assert("woff"@[1] != "webp"@[1]);
            assert("woff"@.len() != "txt"@.len());
            assert("woff"@.len() != "xml"@.len());
            assert("woff"@.len() != "pdf"@.len());
            assert("woff"@.len() != "zip"@.len());
            assert("woff"@.len() != "woff2"@.len());
            assert("woff"@.len() != "ttf"@.len());
            assert("woff"@.len() != "otf"@.len());
            assert("woff"@.len() != "mp4"@.len());
            assert("woff"@[1] != "webm"@[1]);
            assert("woff"@.len() != "mp3"@.len());
            assert("woff"@.len() != "wav"@.len());
            assert("woff"@[1] != "wasm"@[1]);
        }
        if i == 17 {
            assert(t[17].0 == "woff2"@);
            assert("woff2"@.len() != "html"@.len());
            assert("woff2"@.len() != "htm"@.len());
            assert("woff2"@.len() != "css"@.len());
            assert("woff2"@.len() != "js"@.len());
            assert("woff2"@.len() != "json"@.len());
            assert("woff2"@.len() != "png"@.len());
            assert("woff2"@.len() != "jpg"@.len());
            assert("woff2"@.len() != "jpeg"@.len());
            assert("woff2"@.len() != "gif"@.len());
            assert("woff2"@.len() != "svg"@.len());
            assert("woff2"@.len() != "ico"@.len());
            assert("woff2"@.len() != "webp"@.len());
            assert("woff2"@.len() != "txt"@.len());
            assert("woff2"@.len() != "xml"@.len());
            assert("woff2"@.len() != "pdf"@.len());
            assert("woff2"@.len() != "zip"@.len());
            assert("woff2"@.len() != "woff"@.len());
            assert("woff2"@.len() != "ttf"@.len());
            assert("woff2"@.len() != "otf"@.len());
            assert("woff2"@.len() != "mp4"@.len());
            assert("woff2"@.len() != "webm"@.len());
            assert("woff2"@.len() != "mp3"@.len());
            assert("woff2"@.len() != "wav"@.len());
            assert("woff2"@.len() != "wasm"@.len());
        }
        if i == 18 {
            assert(t[18].0 == "ttf"@);
            assert("ttf"@.len() != "html"@.len());
            assert("ttf"@[0] != "htm"@[0]);
            assert("ttf"@[0] != "css"@[0]);
            assert("ttf"@.len() != "js"@.len());
            assert("ttf"@.len() != "json"@.len());
            assert("ttf"@[0] != "png"@[0]);
            assert("ttf"@[0] != "jpg"@[0]);
            assert("ttf"@.len() != "jpeg"@.len());
            assert("ttf"@[0] != "gif"@[0]);
            assert("ttf"@[0] != "svg"@[0]);
            assert("ttf"@[0] != "ico"@[0]);
            assert("ttf"@.len() != "webp"@.len());
            assert("ttf"@[1] != "txt"@[1]);
            assert("ttf"@[0] != "xml"@[0]);
            assert("ttf"@[0] != "pdf"@[0]);
            assert("ttf"@[0] != "zip"@[0]);
            assert("ttf"@.len() != "woff"@.len());
            assert("ttf"@.len() != "woff2"@.len());
            assert("ttf"@[0] != "otf"@[0]);
            assert("ttf"@[0] != "mp4"@[0]);
            assert("ttf"@.len() != "webm"@.len());
            assert("ttf"@[0] != "mp3"@[0]);
            assert("ttf"@[0] != "wav"@[0]);
            assert("ttf"@.len() != "wasm"@.len());
        }
        if i == 19 {
            assert(t[19].0 == "otf"@);
            assert("otf"@.len() != "html"@.len());
            assert("otf"@[0] != "htm"@[0]);
            assert("otf"@[0] != "css"@[0]);
            assert("otf"@.len() != "js"@.len());
            assert("otf"@.len() != "json"@.len());
            assert("otf"@[0] != "png"@[0]);
            assert("otf"@[0] != "jpg"@[0]);
            assert("otf"@.len() != "jpeg"@.len());
            assert("otf"@[0] != "gif"@[0]);
            assert("otf"@[0] != "svg"@[0]);
            assert("otf"@[0] != "ico"@[0]);
            assert("otf"@.len() != "webp"@.len());
            assert("otf"@[0] != "txt"@[0]);
            assert("otf"@[0] != "xml"@[0]);
            assert("otf"@[0] != "pdf"@[0]);
            assert("otf"@[0] != "zip"@[0]);
            assert("otf"@.len() != "woff"@.len());
            assert("otf"@.len() != "woff2"@.len());
            assert("otf"@[0] != "ttf"@[0]);
            assert("otf"@[0] != "mp4"@[0]);
            assert("otf"@.len() != "webm"@.len());
            assert("otf"@[0] != "mp3"@[0]);
            assert("otf"@[0] != "wav"@[0]);
            assert("otf"@.len() != "wasm"@.len());
        }
        if i == 20 {
            assert(t[20].0 == "mp4"@);
            assert("mp4"@.len() != "html"@.len());
            assert("mp4"@[0] != "htm"@[0]);
            assert("mp4"@[0] != "css"@[0]);
            assert("mp4"@.len() != "js"@.len());
            assert("mp4"@.len() != "json"@.len());
            assert("mp4"@[0] != "png"@[0]);
            assert("mp4"@[0] != "jpg"@[0]);
            assert("mp4"@.len() != "jpeg"@.len());
            assert("mp4"@[0] != "gif"@[0]);
            assert("mp4"@[0] != "svg"@[0]);
            assert("mp4"@[0] != "ico"@[0]);
            assert("mp4"@.len() != "webp"@.len());
            assert("mp4"@[0] != "txt"@[0]);
            assert("mp4"@[0] != "xml"@[0]);
            assert("mp4"@[0] != "pdf"@[0]);
            assert("mp4"@[0] != "zip"@[0]);
            assert("mp4"@.len() != "woff"@.len());
            assert("mp4"@.len() != "woff2"@.len());
            assert("mp4"@[0] != "ttf"@[0]);
            assert("mp4"@[0] != "otf"@[0]);
            assert("mp4"@.len() != "webm"@.len());
            assert("mp4"@[2] != "mp3"@[2]);
            assert("mp4"@[0] != "wav"@[0]);
            assert("mp4"@.len() != "wasm"@.len());
        }
        if i == 21 {
            assert(t[21].0 == "webm"@);
            assert("webm"@[0] != "html"@[0]);
            assert("webm"@.len() != "htm"@.len());
            assert("webm"@.len() != "css"@.len());
            assert("webm"@.len() != "js"@.len());
            assert("webm"@[0] != "json"@[0]);
            assert("webm"@.len() != "png"@.len());
            assert("webm"@.len() != "jpg"@.len());
            assert("webm"@[0] != "jpeg"@[0]);
            assert("webm"@.len() != "gif"@.len());
            assert("webm"@.len() != "svg"@.len());
            assert("webm"@.len() != "ico"@.len());
            assert("webm"@[3] != "webp"@[3]);
            assert("webm"@.len() != "txt"@.len());
            assert("webm"@.len() != "xml"@.len());
            assert("webm"@.len() != "pdf"@.len());
            assert("webm"@.len() != "zip"@.len());
            assert("webm"@[1] != "woff"@[1]);
            assert("webm"@.len() != "woff2"@.len());
            assert("webm"@.len() != "ttf"@.len());
            assert("webm"@.len() != "otf"@.len());
            assert("webm"@.len() != "mp4"@.len());
            assert("webm"@.len() != "mp3"@.len());
            assert("webm"@.len() != "wav"@.len());
            assert("webm"@[1] != "wasm"@[1]);
        }
        if i == 22 {
            assert(t[22].0 == "mp3"@);
            assert("mp3"@.len() != "html"@.len());
            assert("mp3"@[0] != "htm"@[0]);
            assert("mp3"@[0] != "css"@[0]);
            assert("mp3"@.len() != "js"@.len());
            assert("mp3"@.len() != "json"@.len());
            assert("mp3"@[0] != "png"@[0]);
            assert("mp3"@[0] != "jpg"@[0]);
            assert("mp3"@.len() != "jpeg"@.len());
            assert("mp3"@[0] != "gif"@[0]);
            assert("mp3"@[0] != "svg"@[0]);
            assert("mp3"@[0] != "ico"@[0]);
            assert("mp3"@.len() != "webp"@.len());
            assert("mp3"@[0] != "txt"@[0]);
            assert("mp3"@[0] != "xml"@[0]);
            assert("mp3"@[0] != "pdf"@[0]);
            assert("mp3"@[0] != "zip"@[0]);
            assert("mp3"@.len() != "woff"@.len());
            assert("mp3"@.len() != "woff2"@.len());
            assert("mp3"@[0] != "ttf"@[0]);
            assert("mp3"@[0] != "otf"@[0]);
            assert("mp3"@[2] != "mp4"@[2]);
            assert("mp3"@.len() != "webm"@.len());
            assert("mp3"@[0] != "wav"@[0]);
            assert("mp3"@.len() != "wasm"@.len());
        }
        if i == 23 {
            assert(t[23].0 == "wav"@);
            assert("wav"@.len() != "html"@.len());
            assert("wav"@[0] != "htm"@[0]);
            assert("wav"@[0] != "css"@[0]);
            assert("wav"@.len() != "js"@.len());
            assert("wav"@.len() != "json"@.len());
            assert("wav"@[0] != "png"@[0]);
            assert("wav"@[0] != "jpg"@[0]);
            assert("wav"@.len() != "jpeg"@.len());
            assert("wav"@[0] != "gif"@[0]);
            assert("wav"@[0] != "svg"@[0]);
            assert("wav"@[0] != "ico"@[0]);
            assert("wav"@.len() != "webp"@.len());
            assert("wav"@[0] != "txt"@[0]);
            assert("wav"@[0] != "xml"@[0]);
            assert("wav"@[0] != "pdf"@[0]);
            assert("wav"@[0] != "zip"@[0]);
            assert("wav"@.len() != "woff"@.len());
            assert("wav"@.len() != "woff2"@.len());
            assert("wav"@[0] != "ttf"@[0]);
            assert("wav"@[0] != "otf"@[0]);
            assert("wav"@[0] != "mp4"@[0]);
            assert("wav"@.len() != "webm"@.len());
            assert("wav"@[0] != "mp3"@[0]);
            assert("wav"@.len() != "wasm"@.len());
        }
        if i == 24 {
            assert(t[24].0 == "wasm"@);
            assert("wasm"@[0] != "html"@[0]);
            assert("wasm"@.len() != "htm"@.len());
            assert("wasm"@.len() != "css"@.len());
            assert("wasm"@.len() != "js"@.len());
            assert("wasm"@[0] != "json"@[0]);
            assert("wasm"@.len() != "png"@.len());
            assert("wasm"@.len() != "jpg"@.len());
            assert("wasm"@[0] != "jpeg"@[0]);
            assert("wasm"@.len() != "gif"@.len());
            assert("wasm"@.len() != "svg"@.len());
            assert("wasm"@.len() != "ico"@.len());
            assert("wasm"@[1] != "webp"@[1]);
            assert("wasm"@.len() != "txt"@.len());
            assert("wasm"@.len() != "xml"@.len());
            assert("wasm"@.len() != "pdf"@.len());
            assert("wasm"@.len() != "zip"@.len());
            assert("wasm"@[1] != "woff"@[1]);
            assert("wasm"@.len() != "woff2"@.len());
            assert("wasm"@.len() != "ttf"@.len());
            assert("wasm"@.len() != "otf"@.len());
            assert("wasm"@.len() != "mp4"@.len());
            assert("wasm"@[1] != "webm"@[1]);
            assert("wasm"@.len() != "mp3"@.len());
            assert("wasm"@.len() != "wav"@.len());
        }
    }
    if forall|i: int| 0 <= i < t.len() ==> #[trigger] t[i].0 != ext {
        assert(t[0].0 != ext);
        assert(t[1].0 != ext);
        assert(t[2].0 != ext);
        assert(t[3].0 != ext);
        assert(t[4].0 != ext);
        assert(t[5].0 != ext);
        assert(t[6].0 != ext);
        assert(t[7].0 != ext);
        assert(t[8].0 != ext);
        assert(t[9].0 != ext);
        assert(t[10].0 != ext);
        assert(t[11].0 != ext);
        assert(t[12].0 != ext);
        assert(t[13].0 != ext);
        assert(t[14].0 != ext);
        assert(t[15].0 != ext);
        assert(t[16].0 != ext);
        assert(t[17].0 != ext);
        assert(t[18].0 != ext);
        assert(t[19].0 != ext);
        assert(t[20].0 != ext);
        assert(t[21].0 != ext);
        assert(t[22].0 != ext);
        assert(t[23].0 != ext);
        assert(t[24].0 != ext);
    }
}

/// The last `c` before `end` is where the backward scan stops.
proof fn lemma_rscan_char_last(p: Seq<char>, c: char, end: int, j: int)
    requires
        0 <= j < end <= p.len(),
        p[j] == c,
        forall|k: int| j < k < end ==> #[trigger] p[k] != c,
    ensures
        rscan_char(p, c, end) == j,
    decreases end,
{
    if end - 1 != j {
        lemma_rscan_char_last(p, c, end - 1, j);
    }
}

/// A backward scan that meets no `c` gives -1.
proof fn lemma_rscan_char_none(p: Seq<char>, c: char, end: int)
    requires
        0 <= end <= p.len(),
        forall|k: int| 0 <= k < end ==> #[trigger] p[k] != c,
    ensures
        rscan_char(p, c, end) == -1,
    decreases end,
{
    if end > 0 {
        lemma_rscan_char_none(p, c, end - 1);
    }
}

/// The extension of `dir/stem.ext`, as `Path::extension` gives it, is `ext`
/// when the file name `stem.ext` holds no `/`, the stem is not empty and does
/// not start with `.`, and `ext` holds no `.`; `dir/` may be absent.
pub proof fn lemma_path_extension(dir: Seq<char>, stem: Seq<char>, ext: Seq<char>)
    requires
        dir.len() == 0 || dir.last() == '/',
        stem.len() > 0,
        stem[0] != '.',
        forall|i: int| 0 <= i < stem.len() ==> #[trigger] stem[i] != '/',
        forall|i: int| 0 <= i < ext.len() ==> #[trigger] ext[i] != '/' && ext[i] != '.',
    ensures
        path_extension(dir + stem + seq!['.'] + ext) == Some(ext),
{
    let name = stem + seq!['.'] + ext;
    let p = dir + name;
    assert(p =~= dir + stem + seq!['.'] + ext);
    let n = p.len() as int;
    assert forall|k: int| dir.len() <= k < n implies #[trigger] p[k] != '/' by {
        assert(p[k] == name[k - dir.len()]);
        if k - dir.len() < stem.len() {
            assert(name[k - dir.len()] == stem[k - dir.len()]);
        } else if k - dir.len() > stem.len() {
            assert(name[k - dir.len()] == ext[k - dir.len() - stem.len() - 1]);
        }
    }
    if dir.len() > 0 {
        assert(p[dir.len() - 1] == '/');
        lemma_rscan_char_last(p, '/', n, dir.len() - 1);
    } else {
        lemma_rscan_char_none(p, '/', n);
    }
    let k = rscan_char(p, '/', n);
    assert(p.subrange(k + 1, n) =~= name);
    assert(name[0] == '.' ==> false) by {
        assert(name[0] == stem[0]);
    }
    assert(name != seq!['.']) by {
        assert(name[0] != seq!['.'][0]);
    }
    assert(name != seq!['.', '.']) by {
        assert(name[0] != seq!['.', '.'][0]);
    }
    assert(file_name_upto(p, n) == Some(name));
    let dot = stem.len() as int;
    assert(name[dot] == '.');
    assert forall|j: int| dot < j < name.len() implies #[trigger] name[j] != '.' by {
        assert(name[j] == ext[j - dot - 1]);
    }
    lemma_rscan_char_last(name, '.', name.len() as int, dot);
    assert(name.subrange(dot + 1, name.len() as int) =~= ext);
}

/// A file `dir/stem.ext` whose extension is in the table is served with the
/// type the table lists for it (see `lemma_path_extension` for the shape of
/// the path).
pub proof fn lemma_mime_of_file(dir: Seq<char>, stem: Seq<char>, i: int)
    requires
        0 <= i < mime_table().len(),
        dir.len() == 0 || dir.last() == '/',
        stem.len() > 0,
        stem[0] != '.',
        forall|j: int| 0 <= j < stem.len() ==> #[trigger] stem[j] != '/',
    ensures
        mime_for(
            match path_extension(dir + stem + seq!['.'] + mime_table()[i].0) {
                Some(e) => e,
                None => Seq::empty(),
            },
        ) == mime_table()[i].1,
{
    let ext = mime_table()[i].0;
    reveal_strlit("html");
    reveal_strlit("htm");
    reveal_strlit("css");
    reveal_strlit("js");
    reveal_strlit("json");
    reveal_strlit("png");
    reveal_strlit("jpg");
    reveal_strlit("jpeg");
    reveal_strlit("gif");
    reveal_strlit("svg");
    reveal_strlit("ico");
    reveal_strlit("webp");
    reveal_strlit("txt");
    reveal_strlit("xml");
    reveal_strlit("pdf");
    reveal_strlit("zip");
    reveal_strlit("woff");
    reveal_strlit("woff2");
    reveal_strlit("ttf");
    reveal_strlit("otf");
    reveal_strlit("mp4");
    reveal_strlit("webm");
    reveal_strlit("mp3");
    reveal_strlit("wav");
    reveal_strlit("wasm");
    assert forall|j: int| 0 <= j < ext.len() implies #[trigger] ext[j] != '/' && ext[j] != '.' by {
        if i == 0 { assert(ext == "html"@); }
        if i == 1 { assert(ext == "htm"@); }
        if i == 2 { assert(ext == "css"@); }
        if i == 3 { assert(ext == "js"@); }
        if i == 4 { assert(ext == "json"@); }
        if i == 5 { assert(ext == "png"@); }
        if i == 6 { assert(ext == "jpg"@); }
        if i == 7 { assert(ext == "jpeg"@); }
        if i == 8 { assert(ext == "gif"@); }
        if i == 9 { assert(ext == "svg"@); }
        if i == 10 { assert(ext == "ico"@); }
        if i == 11 { assert(ext == "webp"@); }
        if i == 12 { assert(ext == "txt"@); }
        if i == 13 { assert(ext == "xml"@); }
        if i == 14 { assert(ext == "pdf"@); }
        if i == 15 { assert(ext == "zip"@); }
        if i == 16 { assert(ext == "woff"@); }
        if i == 17 { assert(ext == "woff2"@); }
        if i == 18 { assert(ext == "ttf"@); }
        if i == 19 { assert(ext == "otf"@); }
        if i == 20 { assert(ext == "mp4"@); }
        if i == 21 { assert(ext == "webm"@); }
        if i == 22 { assert(ext == "mp3"@); }
        if i == 23 { assert(ext == "wav"@); }
        if i == 24 { assert(ext == "wasm"@); }
    }
    lemma_path_extension(dir, stem, ext);
    lemma_mime_table(ext);
}

/// The content type served for an extension.
pub fn mime_for_extension(ext: &str) -> (r: &'static str)
    ensures
        r@ == mime_for(ext@),
{
    if str_equal(ext, "html") || str_equal(ext, "htm") {
        "text/html;charset=utf-8"
    } else if str_equal(ext, "css") {
        "text/css;charset=utf-8"
    } else if str_equal(ext, "js") {
        "application/javascript;charset=utf-8"
    } else if str_equal(ext, "json") {
        "application/json"
    } else if str_equal(ext, "png") {
        "image/png"
    } else if str_equal(ext, "jpg") || str_equal(ext, "jpeg") {
        "image/jpeg"
    } else if str_equal(ext, "gif") {
        "image/gif"
    } else if str_equal(ext, "svg") {
        "image/svg+xml"
    } else if str_equal(ext, "ico") {
        "image/x-icon"
    } else if str_equal(ext, "webp") {
        "image/webp"
    } else if str_equal(ext, "txt") {
        "text/plain;charset=utf-8"
    } else if str_equal(ext, "xml") {
        "application/xml"
    } else if str_equal(ext, "pdf") {
        "application/pdf"
    } else if str_equal(ext, "zip") {
        "application/zip"
    } else if str_equal(ext, "woff") {
        "font/woff"
    } else if str_equal(ext, "woff2") {
        "font/woff2"
    } else if str_equal(ext, "ttf") {
        "font/ttf"
    } else if str_equal(ext, "otf") {
        "font/otf"
    } else if str_equal(ext, "mp4") {
        "video/mp4"
    } else if str_equal(ext, "webm") {
        "video/webm"
    } else if str_equal(ext, "mp3") {
        "audio/mpeg"
    } else if str_equal(ext, "wav") {
        "audio/wav"
    } else if str_equal(ext, "wasm") {
        "application/wasm"
    } else {
        "application/octet-stream"
    }
}

/// The content type served for a file path, by its extension; unknown or
/// missing extensions give `application/octet-stream`.
pub fn get_mime_type(path: &str) -> (r: &'static str)
    ensures
        r@ == mime_for(
            match path_extension(path@) {
                Some(e) => e,
                None => Seq::empty(),
            },
        ),
{
    match file_extension(path) {
        Some(e) => mime_for_extension(e.as_str()),
        None => {
            let r = mime_for_extension("");
            proof {
                reveal_strlit("");
            }
            assert(""@ =~= Seq::<char>::empty());
            r
        },
    }
}

/// `str::trim_start_matches('/')`: the path without leading slashes, relative
/// to the directory it is served from.
pub fn relative_path(url_path: &str) -> (r: String)
    ensures
        r@ == crate::text::trim_start_where(url_path@, |c: char| c == '/'),
{
    let cs = crate::text::chars_of(url_path);
    let n = cs.len();
    let mut a: usize = 0;
    assert(cs@.subrange(0, n as int) =~= url_path@);
    while a < n && cs[a] == '/'
        invariant
            a <= n,
            n == cs@.len(),
            cs@ == url_path@,
            crate::text::trim_start_where(url_path@, |c: char| c == '/')
                == crate::text::trim_start_where(cs@.subrange(a as int, n as int), |c: char| c == '/'),
        decreases n - a,
    {
        assert(cs@.subrange(a as int, n as int).drop_first() =~= cs@.subrange(a + 1, n as int));
        a = a + 1;
    }
    string_from_char_range(cs.as_slice(), a, n)
}

/// The answer carrying a file's bytes, typed by the extension of its path.
pub fn file_response(data: Vec<u8>, path: &str) -> (r: Response)
    ensures
        r.status == 200,
        headers_view(r.headers@) == seq![("Content-Type"@, mime_for(
            match path_extension(path@) {
                Some(e) => e,
                None => Seq::empty(),
            },
        ))],
        r.body@ == data@,
{
    let mime = get_mime_type(path);
    let mut resp = Response::new(200, data);
    let mut headers: Vec<(String, String)> = Vec::new();
    headers.push(("Content-Type".to_owned(), mime.to_owned()));
    assert(headers_view(headers@) =~= seq![("Content-Type"@, mime@)]);
    resp.headers = headers;
    resp
}

/// The answer carrying the `index.html` of a directory.
pub fn index_response(data: Vec<u8>) -> (r: Response)
    ensures
        r.status == 200,
        headers_view(r.headers@) == seq![("Content-Type"@, "text/html;charset=utf-8"@)],
        r.body@ == data@,
{
    let mut resp = Response::new(200, data);
    let mut headers: Vec<(String, String)> = Vec::new();
    headers.push(("Content-Type".to_owned(), "text/html;charset=utf-8".to_owned()));
    assert(headers_view(headers@) =~= seq![("Content-Type"@, "text/html;charset=utf-8"@)]);
    resp.headers = headers;
    resp
}

/// A path text starts at the root directory.
pub open spec fn is_absolute_text(p: Seq<char>) -> bool {
    p.len() > 0 && p[0] == '/'
}

/// `target` lies at or below `root`, as `Path::starts_with` decides it: both
/// absolute or both relative, and the parts of `root` (its non-empty pieces
/// between slashes) begin the parts of `target`. Meant for paths without `.`
/// or `..` parts, as canonical paths are.
pub open spec fn path_within(root: Seq<char>, target: Seq<char>) -> bool {
    &&& is_absolute_text(root) == is_absolute_text(target)
    &&& seq_starts_with(segments(target), segments(root))
}

/// `Path::join(dir, "index.html")`: the name after a slash, which is not
/// doubled when the directory already ends in one.
pub open spec fn index_in(dir: Seq<char>) -> Seq<char> {
    if dir.len() == 0 || dir.last() == '/' {
        dir + "index.html"@
    } else {
        dir + "/index.html"@
    }
}

/// Whether `target` lies at or below `root`.
pub fn path_within_exec(root: &str, target: &str) -> (r: bool)
    ensures
        r == path_within(root@, target@),
{
    let rc = chars_of(root);
    let tc = chars_of(target);
    let ra = rc.len() > 0 && rc[0] == '/';
    let ta = tc.len() > 0 && tc[0] == '/';
    assert(ra == is_absolute_text(root@));
    assert(ta == is_absolute_text(target@));
    if ra != ta {
        return false;
    }
    let rs = split_path(root);
    let ts = split_path(target);
    assert(strings_view(rs@).len() == rs@.len());
    assert(strings_view(ts@).len() == ts@.len());
    if rs.len() > ts.len() {
        return false;
    }
    let n = rs.len();
    let mut i: usize = 0;
    while i < n
        invariant
            n == rs@.len(),
            n <= ts@.len(),
            i <= n,
            strings_view(rs@) == segments(root@),
            strings_view(ts@) == segments(target@),
            strings_view(rs@).len() == rs@.len(),
            strings_view(ts@).len() == ts@.len(),
            is_absolute_text(root@) == is_absolute_text(target@),
            forall|j: int| 0 <= j < i ==> strings_view(ts@)[j] == strings_view(rs@)[j],
        decreases n - i,
    {
        if !str_equal(rs[i].as_str(), ts[i].as_str()) {
            assert(strings_view(ts@)[i as int] == ts@[i as int]@);
            assert(strings_view(rs@)[i as int] == rs@[i as int]@);
            assert(strings_view(ts@).subrange(0, n as int)[i as int] != strings_view(rs@)[i as int]);
            return false;
        }
        i = i + 1;
    }
    assert(strings_view(ts@).subrange(0, n as int) =~= strings_view(rs@));
    true
}

/// The directory's `index.html`.
fn index_path(dir: &str) -> (r: String)
    ensures
        r@ == index_in(dir@),
{
    let cs = chars_of(dir);
    let mut s = dir.to_owned();
    if cs.len() == 0 || cs[cs.len() - 1] == '/' {
        push_str(&mut s, "index.html");
    } else {
        push_str(&mut s, "/index.html");
    }
    s
}

/// What serving a static file comes to, once the served directory and the
/// requested path have been made canonical.
pub enum StaticStep {
    InternalError,
    NotFound,
    ServeIndex(String),
    ServeFile(String),
}

/// Decides how to answer a request for a static file. `root` is the served
/// directory made canonical (`None` when that failed); `target` is the
/// requested path made canonical, or else the canonical path of the
/// `index.html` below it (`None` when both failed). Nothing outside the
/// served directory is served; a directory is served by its `index.html`.
pub fn static_step(root: Option<String>, target: Option<String>, target_is_dir: bool, index_is_file: bool) -> (r: StaticStep)
    ensures
        root is None ==> r is InternalError,
        root is Some && target is None ==> r is NotFound,
        root is Some && target is Some && !path_within(root->Some_0@, target->Some_0@) ==> r is NotFound,
        root is Some && target is Some && path_within(root->Some_0@, target->Some_0@) ==> if target_is_dir {
            if index_is_file {
                r matches StaticStep::ServeIndex(p) && p@ == index_in(target->Some_0@)
            } else {
                r is NotFound
            }
        } else {
            r matches StaticStep::ServeFile(p) && p@ == target->Some_0@
        },
{
    let root = match root {
        Some(r) => r,
        None => return StaticStep::InternalError,
    };
    let target = match target {
        Some(t) => t,
        None => return StaticStep::NotFound,
    };
    if !path_within_exec(root.as_str(), target.as_str()) {
        return StaticStep::NotFound;
    }
    if target_is_dir {
        if index_is_file {
            StaticStep::ServeIndex(index_path(target.as_str()))
        } else {
            StaticStep::NotFound
        }
    } else {
        StaticStep::ServeFile(target)
    }
}

} // verus!
