//! Which file of an external frontend build a request path may name: only
//! relative paths that stay inside the build directory.
use vstd::prelude::*;
use crate::text::{has_prefix, join, join_strings, slash_segments, split_slash_segments, starts_with_str, str_eq, strip_leading, trim_start_matches_char};

verus! {

/// The path segments of `path` other than `.`.
pub open spec fn named_segments(segments: Seq<Seq<char>>) -> Seq<Seq<char>>
    decreases segments.len(),
{
    if segments.len() == 0 {
        segments
    } else {
        let rest = named_segments(segments.drop_last());
        if segments.last() == "."@ {
            rest
        } else {
            rest.push(segments.last())
        }
    }
}

/// The relative file path an asset request names: none for an absolute
/// path or one that climbs out with `..`; else its segments, without empty
/// and `.` ones, joined by `/`.
pub open spec fn asset_path_spec(path: Seq<char>) -> Option<Seq<char>> {
    let segs = slash_segments(path);
    if (path.len() > 0 && path[0] == '/') || segs.contains(".."@) {
        None
    } else {
        Some(join(named_segments(segs), "/"@))
    }
}

/// The path of the requested file under the frontend build directory, as
/// [`asset_path_spec`] says.
pub fn sanitize_asset_path(path: &str) -> (r: Option<String>)
    ensures
        match r {
            Some(p) => asset_path_spec(path@) == Some(p@),
            None => asset_path_spec(path@) is None,
        },
{
    if path.unicode_len() > 0 && path.get_char(0) == '/' {
        return None;
    }
    let segs = split_slash_segments(path);
    let ghost sv = segs@.map_values(|s: String| s@);
    let mut kept: Vec<String> = Vec::new();
    let mut i: usize = 0;
    while i < segs.len()
        invariant
            i <= segs@.len(),
            sv == segs@.map_values(|s: String| s@),
            sv == slash_segments(path@),
            !(path@.len() > 0 && path@[0] == '/'),
            forall|k: int| 0 <= k < i ==> sv[k] != ".."@,
            kept@.map_values(|s: String| s@) == named_segments(sv.subrange(0, i as int)),
        decreases segs@.len() - i,
    {
        proof {
            assert(sv.subrange(0, i + 1).drop_last() =~= sv.subrange(0, i as int));
            assert(sv[i as int] == segs@[i as int]@);
        }
        if str_eq(segs[i].as_str(), "..") {
            proof {
                assert(sv.contains(".."@));
            }
            return None;
        }
        if !str_eq(segs[i].as_str(), ".") {
            let ghost before = kept@.map_values(|s: String| s@);
            kept.push(segs[i].clone());
            proof {
                assert(kept@.map_values(|s: String| s@) =~= before.push(sv[i as int]));
            }
        }
        i = i + 1;
    }
    proof {
        assert(sv.subrange(0, segs@.len() as int) =~= sv);
        assert(!sv.contains(".."@));
    }
    Some(join_strings(&kept, "/"))
}

/// The asset a frontend request asks for: the path without its leading
/// slashes.
pub fn requested_asset(uri_path: &str) -> (r: &str)
    ensures
        r@ == strip_leading(uri_path@, '/'),
{
    trim_start_matches_char(uri_path, '/')
}

/// What answers a request for a file the frontend build lacks.
#[derive(Clone, Copy, Debug, PartialEq, Eq, Structural)]
pub enum MissingAsset {
    /// `404 Not Found`: a missing file under `assets/`.
    NotFound,
    /// The application page, which routes the path itself.
    ServeIndex,
}

/// A missing file under `assets/` is not found; any other path is left to
/// the application page.
pub fn missing_asset(path: &str) -> (r: MissingAsset)
    ensures
        r == (if has_prefix(path@, "assets/"@) {
            MissingAsset::NotFound
        } else {
            MissingAsset::ServeIndex
        }),
{
    if starts_with_str(path, "assets/") {
        MissingAsset::NotFound
    } else {
        MissingAsset::ServeIndex
    }
}

} // verus!
