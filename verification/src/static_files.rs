use vstd::prelude::*;

use crate::http::text::same_text;

verus! {

/// `base` joined with `rel` as `PathBuf::push` documents it on Unix: an absolute `rel` (one
/// that starts with `/`) replaces `base`; a relative one is appended, with a `/` between
/// unless `base` is empty or already ends in one.
pub open spec fn path_join(base: Seq<char>, rel: Seq<char>) -> Seq<char> {
    if rel.len() > 0 && rel[0] == '/' {
        rel
    } else if base.len() == 0 {
        rel
    } else if base.last() == '/' {
        base + rel
    } else {
        base + seq!['/'] + rel
    }
}

/// What `Path::extension` gives for the path `path`, as text.
pub uninterp spec fn path_extension(path: Seq<char>) -> Option<Seq<char>>;

/// What `Path::starts_with` says of `path` and `base`: whether `base` is a prefix of `path`,
/// whole components at a time.
pub uninterp spec fn path_starts_with(path: Seq<char>, base: Seq<char>) -> bool;

/// `std::path::Path::join`: `base` joined with `rel`, returned as text. The contract is what
/// the documentation of `Path::join` and `PathBuf::push` says on Unix, where a path is
/// absolute exactly when it starts with `/`; both inputs are UTF-8, so the text is exact.
#[verifier::external_body]
fn join_paths(base: &str, rel: &str) -> (r: String)
    ensures
        r@ == path_join(base@, rel@),
{
    std::path::Path::new(base).join(rel).to_string_lossy().into_owned()
}

/// `std::path::Path::extension`: the extension of the path's file name, as text.
/// The call depends on the path alone; what it returns is named, not stated.
#[verifier::external_body]
fn extension_of(path: &str) -> (r: Option<String>)
    ensures
        match r {
            Some(e) => path_extension(path@) == Some(e@),
            None => path_extension(path@) is None,
        },
{
    match std::path::Path::new(path).extension() {
        Some(e) => Some(e.to_string_lossy().into_owned()),
        None => None,
    }
}

/// `std::path::Path::starts_with`: whether `base` is a prefix of `path` by whole
/// components. The call depends on its two arguments alone; its answer is named, not stated.
#[verifier::external_body]
fn starts_with_path(path: &str, base: &str) -> (b: bool)
    ensures
        b == path_starts_with(path@, base@),
{
    std::path::Path::new(path).starts_with(base)
}

/// Serves files from under a root directory.
pub struct StaticFiles {
    root: String,
}

/// `p` without its leading slashes.
pub open spec fn trim_leading_slashes(p: Seq<char>) -> Seq<char>
    decreases p.len(),
{
    if p.len() > 0 && p[0] == '/' {
        trim_leading_slashes(p.drop_first())
    } else {
        p
    }
}

/// The file a request path names, relative to the root: the path without its leading
/// slashes, or `index.html` where nothing is left.
pub open spec fn relative_request_path(p: Seq<char>) -> Seq<char> {
    let t = trim_leading_slashes(p);
    if t.len() == 0 {
        "index.html"@
    } else {
        t
    }
}

/// A request path always names a non-empty path relative to the root: it never starts with
/// a slash, so joining it to the root cannot replace the root.
pub proof fn lemma_relative_path_is_relative(p: Seq<char>)
    ensures
        relative_request_path(p).len() > 0,
        relative_request_path(p)[0] != '/',
    decreases p.len(),
{
    reveal_strlit("index.html");
    if p.len() > 0 && p[0] == '/' {
        lemma_relative_path_is_relative(p.drop_first());
    }
}

/// The path a request names, before it is resolved on disk, is the root followed by the
/// request's relative path: it starts with the whole root text, and after it comes a `/`
/// (or the root already ended in one) and then the relative path.
pub proof fn lemma_candidate_under_root(root: Seq<char>, p: Seq<char>)
    requires
        root.len() > 0,
    ensures
        path_join(root, relative_request_path(p)).len() > root.len(),
        path_join(root, relative_request_path(p)).take(root.len() as int) == root,
        root.last() == '/' || path_join(root, relative_request_path(p))[root.len() as int] == '/',
        path_join(root, relative_request_path(p)).skip(
            root.len() + (if root.last() == '/' { 0int } else { 1int }),
        ) == relative_request_path(p),
{
    lemma_relative_path_is_relative(p);
    let rel = relative_request_path(p);
    let j = path_join(root, rel);
    if root.last() == '/' {
        assert(j.take(root.len() as int) =~= root);
        assert(j.skip(root.len() as int) =~= rel);
    } else {
        assert(j.take(root.len() as int) =~= root);
        assert(j.skip(root.len() as int + 1) =~= rel);
    }
}

/// The content type announced for a file extension.
pub open spec fn content_type_for(ext: Option<Seq<char>>) -> Seq<char> {
    match ext {
        Some(e) => if e == "html"@ || e == "htm"@ {
            "text/html; charset=utf-8"@
        } else if e == "css"@ {
            "text/css; charset=utf-8"@
        } else if e == "js"@ {
            "application/javascript"@
        } else if e == "json"@ {
            "application/json"@
        } else if e == "txt"@ {
            "text/plain; charset=utf-8"@
        } else if e == "xml"@ {
            "application/xml"@
        } else if e == "csv"@ {
            "text/csv"@
        } else if e == "png"@ {
            "image/png"@
        } else if e == "jpg"@ || e == "jpeg"@ {
            "image/jpeg"@
        } else if e == "gif"@ {
            "image/gif"@
        } else if e == "svg"@ {
            "image/svg+xml"@
        } else if e == "ico"@ {
            "image/x-icon"@
        } else if e == "webp"@ {
            "image/webp"@
        } else if e == "woff"@ {
            "font/woff"@
        } else if e == "woff2"@ {
            "font/woff2"@
        } else if e == "ttf"@ {
            "font/ttf"@
        } else if e == "mp3"@ {
            "audio/mpeg"@
        } else if e == "mp4"@ {
            "video/mp4"@
        } else if e == "webm"@ {
            "video/webm"@
        } else {
            "application/octet-stream"@
        },
        None => "application/octet-stream"@,
    }
}

/// The content type announced for a file extension; an unknown or missing extension gets
/// `application/octet-stream`.
pub fn content_type_for_extension(ext: Option<&str>) -> (t: &'static str)
    ensures
        t@ == content_type_for(match ext {
            Some(e) => Some(e@),
            None => None,
        }),
{
    match ext {
        None => "application/octet-stream",
        Some(e) => {
            if same_text(e, "html") || same_text(e, "htm") {
                "text/html; charset=utf-8"
            } else if same_text(e, "css") {
                "text/css; charset=utf-8"
            } else if same_text(e, "js") {
                "application/javascript"
            } else if same_text(e, "json") {
                "application/json"
            } else if same_text(e, "txt") {
                "text/plain; charset=utf-8"
            } else if same_text(e, "xml") {
                "application/xml"
            } else if same_text(e, "csv") {
                "text/csv"
            } else if same_text(e, "png") {
                "image/png"
            } else if same_text(e, "jpg") || same_text(e, "jpeg") {
                "image/jpeg"
            } else if same_text(e, "gif") {
                "image/gif"
            } else if same_text(e, "svg") {
                "image/svg+xml"
            } else if same_text(e, "ico") {
                "image/x-icon"
            } else if same_text(e, "webp") {
                "image/webp"
            } else if same_text(e, "woff") {
                "font/woff"
            } else if same_text(e, "woff2") {
                "font/woff2"
            } else if same_text(e, "ttf") {
                "font/ttf"
            } else if same_text(e, "mp3") {
                "audio/mpeg"
            } else if same_text(e, "mp4") {
                "video/mp4"
            } else if same_text(e, "webm") {
                "video/webm"
            } else {
                "application/octet-stream"
            }
        },
    }
}

/// The content type announced for the file at `path`, by its extension.
pub fn infer_content_type(path: &str) -> (t: &'static str)
    ensures
        t@ == content_type_for(path_extension(path@)),
{
    match extension_of(path) {
        Some(e) => content_type_for_extension(Some(e.as_str())),
        None => content_type_for_extension(None),
    }
}

impl StaticFiles {
    /// Files served from under `root`.
    pub fn new(root: &str) -> (s: StaticFiles)
        ensures
            s.root_spec() == root@,
    {
        StaticFiles { root: String::from_str(root) }
    }

    /// The root directory.
    pub closed spec fn root_spec(&self) -> Seq<char> {
        self.root@
    }

    /// The root directory.
    pub fn root(&self) -> (r: &str)
        ensures
            r@ == self.root_spec(),
    {
        self.root.as_str()
    }

    /// The file a request path names, relative to the root.
    pub fn relative_path(request_path: &str) -> (r: String)
        ensures
            r@ == relative_request_path(request_path@),
    {
        let cs = crate::http::text::chars_of(request_path);
        let mut i: usize = 0;
        assert(cs@.skip(0) =~= cs@);
        while i < cs.len() && cs[i] == '/'
            invariant
                cs@ == request_path@,
                i <= cs@.len(),
                trim_leading_slashes(cs@) == trim_leading_slashes(cs@.skip(i as int)),
            decreases cs.len() - i,
        {
            assert(cs@.skip(i as int).drop_first() =~= cs@.skip(i + 1));
            i = i + 1;
        }
        let t = request_path.substring_char(i, cs.len());
        assert(t@ =~= cs@.skip(i as int));
        assert(trim_leading_slashes(cs@.skip(i as int)) == cs@.skip(i as int));
        if i == cs.len() {
            String::from_str("index.html")
        } else {
            String::from_str(t)
        }
    }

    /// The path under the root that a request path names, before it is resolved on disk.
    pub fn candidate_path(&self, request_path: &str) -> (r: String)
        ensures
            r@ == path_join(self.root_spec(), relative_request_path(request_path@)),
    {
        let rel = StaticFiles::relative_path(request_path);
        join_paths(self.root.as_str(), rel.as_str())
    }

    /// The resolved file path, where it lies under the resolved root; `None` where the
    /// request path escapes the root.
    pub fn confine(canonical_root: &str, canonical_path: &str) -> (r: Option<String>)
        ensures
            match r {
                Some(p) => path_starts_with(canonical_path@, canonical_root@) && p@
                    == canonical_path@,
                None => !path_starts_with(canonical_path@, canonical_root@),
            },
    {
        if starts_with_path(canonical_path, canonical_root) {
            Some(String::from_str(canonical_path))
        } else {
            None
        }
    }
}

} // verus!
