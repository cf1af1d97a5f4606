//! The bundled single-page client, served as static assets.
//!
//! The bundle itself is provisioned by an external step; the library
//! resolves a request path against it: leading slashes are stripped,
//! the first asset with the exact remaining path is served under the
//! MIME type its extension suggests, and anything else is a miss.

use crate::text::str_eq;
use vstd::prelude::*;
use vstd::string::StrSliceExecFns;

verus! {

/// The MIME type guessed from a path's extension.
pub uninterp spec fn mime_of(path: Seq<char>) -> Seq<char>;

/// Relies on `mime_guess::from_path(..).first_or_octet_stream()`: a
/// static extension-table lookup, a function of the path alone; the
/// fallback is `application/octet-stream`, so the result is never
/// empty.
#[verifier::external_body]
pub(crate) fn content_type_of(path: &str) -> (r: String)
    ensures
        r@ == mime_of(path@),
        r@.len() > 0,
{
    mime_guess::from_path(path).first_or_octet_stream().as_ref().to_owned()
}

/// A path with every leading slash removed.
pub open spec fn strip_slashes(s: Seq<char>) -> Seq<char>
    decreases s.len(),
{
    if s.len() > 0 && s[0] == '/' {
        strip_slashes(s.drop_first())
    } else {
        s
    }
}

/// Strips the leading slashes off a request path.
pub fn normalize_path(uri_path: &str) -> (r: String)
    ensures
        r@ == strip_slashes(uri_path@),
{
    let n = uri_path.unicode_len();
    let mut i: usize = 0;
    proof {
        assert(uri_path@.skip(0) =~= uri_path@);
    }
    loop
        invariant
            i <= n,
            n == uri_path@.len(),
            strip_slashes(uri_path@) == strip_slashes(uri_path@.skip(i as int)),
        ensures
            i <= n,
            n == uri_path@.len(),
            strip_slashes(uri_path@) == uri_path@.skip(i as int),
        decreases n - i,
    {
        if i == n {
            break;
        }
        if uri_path.get_char(i) != '/' {
            proof {
                assert(uri_path@.skip(i as int)[0] == uri_path@[i as int]);
            }
            break;
        }
        proof {
            assert(uri_path@.skip(i as int)[0] == uri_path@[i as int]);
            assert(uri_path@.skip(i as int).drop_first() =~= uri_path@.skip(i as int + 1));
        }
        i = i + 1;
    }
    let tail = uri_path.substring_char(i, n);
    proof {
        assert(tail@ =~= uri_path@.skip(i as int));
    }
    tail.to_owned()
}

/// The bundled assets: path and body pairs, in bundle order.
pub struct AssetSet {
    assets: Vec<(String, Vec<u8>)>,
}

impl View for AssetSet {
    type V = Seq<(Seq<char>, Seq<u8>)>;

    closed spec fn view(&self) -> Seq<(Seq<char>, Seq<u8>)> {
        self.assets@.map_values(|p: (String, Vec<u8>)| (p.0@, p.1@))
    }
}

/// The body bundled under the first occurrence of a path, if any.
pub open spec fn asset_lookup(assets: Seq<(Seq<char>, Seq<u8>)>, path: Seq<char>) -> Option<
    Seq<u8>,
>
    decreases assets.len(),
{
    if assets.len() == 0 {
        None
    } else if assets[0].0 == path {
        Some(assets[0].1)
    } else {
        asset_lookup(assets.drop_first(), path)
    }
}

impl AssetSet {
    /// An empty bundle.
    pub fn new() -> (r: AssetSet)
        ensures
            r@ == Seq::<(Seq<char>, Seq<u8>)>::empty(),
    {
        let r = AssetSet { assets: Vec::new() };
        proof {
            assert(r@ =~= Seq::<(Seq<char>, Seq<u8>)>::empty());
        }
        r
    }

    /// Adds one bundled asset; this is the provisioning step.
    pub fn add(&mut self, path: String, body: Vec<u8>)
        ensures
            final(self)@ == old(self)@.push((path@, body@)),
    {
        let ghost pv = path@;
        let ghost bv = body@;
        self.assets.push((path, body));
        proof {
            assert(self@ =~= old(self)@.push((pv, bv)));
        }
    }
}

/// A static asset request, by path.
pub struct StaticFile(pub String);

/// What serving a static asset yields: the body and its MIME type, or
/// a miss the service answers with a plain not-found page.
pub enum StaticContent<'a> {
    Found(String, &'a Vec<u8>),
    Missing,
}

impl StaticFile {
    /// Resolves the request against the bundle.
    pub fn respond<'a>(self, assets: &'a AssetSet) -> (r: StaticContent<'a>)
        ensures
            match asset_lookup(assets@, self.0@) {
                Some(b) => r is Found && r->Found_0@ == mime_of(self.0@) && r->Found_1@ == b,
                None => r is Missing,
            },
    {
        let ghost s = assets@;
        let mut i: usize = 0;
        proof {
            assert(s.skip(0) =~= s);
        }
        loop
            invariant
                i <= assets.assets.len(),
                s == assets@,
                assets.assets@.len() == s.len(),
                asset_lookup(s, self.0@) == asset_lookup(s.skip(i as int), self.0@),
            ensures
                i <= assets.assets.len(),
                assets.assets@.len() == s.len(),
                i < assets.assets.len() ==> asset_lookup(s, self.0@) == Some(
                    s[i as int].1,
                ) && s[i as int].0 == self.0@,
                i == assets.assets.len() ==> asset_lookup(s, self.0@) is None,
            decreases assets.assets.len() - i,
        {
            if i == assets.assets.len() {
                break;
            }
            proof {
                assert(s.skip(i as int)[0] == s[i as int]);
                assert(s[i as int] == (assets.assets@[i as int].0@, assets.assets@[i as int].1@));
                assert(s.skip(i as int).drop_first() =~= s.skip(i as int + 1));
            }
            if str_eq(assets.assets[i].0.as_str(), self.0.as_str()) {
                break;
            }
            i = i + 1;
        }
        if i < assets.assets.len() {
            let mime = content_type_of(self.0.as_str());
            StaticContent::Found(mime, &assets.assets[i].1)
        } else {
            StaticContent::Missing
        }
    }
}

/// Serves the bundled client page, as the root and index routes do.
pub fn index_content<'a>(assets: &'a AssetSet) -> (r: StaticContent<'a>)
    ensures
        match asset_lookup(assets@, "index.html"@) {
            Some(b) => r is Found && r->Found_0@ == mime_of("index.html"@) && r->Found_1@ == b,
            None => r is Missing,
        },
{
    StaticFile("index.html".to_owned()).respond(assets)
}

/// The body of the miss answer.
pub fn not_found_body() -> (r: &'static str)
    ensures
        r@ == "404 Not Found"@,
{
    "404 Not Found"
}

} // verus!
