//! Where the files of objects are looked for.

use crate::ratty_vt::cell::same_text;
use crate::text::{chars_of, lowercase, part_of, string_of, to_lowercase};
use vstd::prelude::*;

verus! {

/// A part of a path.
#[derive(Debug)]
pub enum PathPart {
    /// The root.
    Root,
    /// The directory itself.
    Current,
    /// The directory above.
    Parent,
    /// A name.
    Normal(String),
}

/// Why a path names no object.
#[derive(Clone, Copy, Debug, PartialEq, Eq, Structural)]
pub enum AssetPathError {
    /// It is absolute, and not below the assets.
    OutsideAssets,
    /// It is no text.
    NotText,
}

/// A path: its parts, whether it starts at the root, and how it is written.
#[derive(Debug)]
pub struct ObjectPath {
    pub parts: Vec<PathPart>,
    pub absolute: bool,
    pub text: Option<String>,
}

pub open spec fn is_assets(part: PathPart) -> bool {
    part matches PathPart::Normal(name) && name@ == "assets"@
}

/// Where the assets are first named in a path.
pub open spec fn assets_at(parts: Seq<PathPart>, from: int) -> Option<int>
    decreases parts.len() - from,
{
    if from < 0 || from >= parts.len() {
        None
    } else if is_assets(parts[from]) {
        Some(from)
    } else {
        assets_at(parts, from + 1)
    }
}

/// The names among some parts, with slashes between them.
pub open spec fn joined_names(parts: Seq<PathPart>) -> Seq<char>
    decreases parts.len(),
{
    if parts.len() == 0 {
        Seq::empty()
    } else {
        let before = joined_names(parts.drop_last());
        match parts.last() {
            PathPart::Normal(name) => if has_names(parts.drop_last()) {
                before.push('/') + name@
            } else {
                name@
            },
            _ => before,
        }
    }
}

/// Whether there is a name among some parts.
pub open spec fn has_names(parts: Seq<PathPart>) -> bool {
    exists|i: int| 0 <= i < parts.len() && (#[trigger] parts[i]) is Normal
}

/// Text with slashes for backslashes.
pub open spec fn with_slashes(text: Seq<char>) -> Seq<char> {
    Seq::new(
        text.len(),
        |i: int|
            if text[i] == '\\' {
                '/'
            } else {
                text[i]
            },
    )
}

/// Text without a prefix, where it has it.
pub open spec fn without_prefix(text: Seq<char>, prefix: Seq<char>) -> Seq<char> {
    if prefix.is_prefix_of(text) {
        text.skip(prefix.len() as int)
    } else {
        text
    }
}

/// A relative path as one below the assets. A single name is that of an object.
pub open spec fn candidate(path: ObjectPath) -> Result<Seq<char>, AssetPathError> {
    match path.text {
        None => Err(AssetPathError::NotText),
        Some(text) => Ok(
            without_prefix(
                with_slashes(
                    if path.parts@.len() == 1 {
                        "objects/"@ + text@
                    } else {
                        text@
                    },
                ),
                "assets/"@,
            ),
        ),
    }
}

/// The path of an object below the assets: what follows where they are named, or the
/// path itself if it is relative.
pub open spec fn asset_path(path: ObjectPath) -> Result<Seq<char>, AssetPathError> {
    let below = match assets_at(path.parts@, 0) {
        Some(place) => path.parts@.skip(place + 1),
        None => Seq::empty(),
    };
    if has_names(below) {
        Ok(joined_names(below))
    } else if path.absolute {
        Err(AssetPathError::OutsideAssets)
    } else {
        candidate(path)
    }
}

fn find_assets(parts: &Vec<PathPart>) -> (r: Option<usize>)
    ensures
        match r {
            Some(place) => assets_at(parts@, 0) == Some(place as int) && place < parts@.len(),
            None => assets_at(parts@, 0) is None,
        },
{
    let mut i: usize = 0;
    while i < parts.len()
        invariant
            i <= parts@.len(),
            assets_at(parts@, 0) == assets_at(parts@, i as int),
        decreases parts@.len() - i,
    {
        if let PathPart::Normal(name) = &parts[i] {
            if same_text(name.as_str(), "assets") {
                return Some(i);
            }
        }
        i = i + 1;
    }
    None
}

/// The names behind a part, if there are any.
fn names_behind(parts: &Vec<PathPart>, place: usize) -> (r: Option<String>)
    requires
        place < parts@.len(),
    ensures
        ({
            let below = parts@.skip(place + 1);
            match r {
                Some(text) => has_names(below) && text@ == joined_names(below),
                None => !has_names(below),
            }
        }),
{
    let ghost below = parts@.skip(place + 1);
    let len: usize = parts.len();
    let mut text = String::new();
    let mut any = false;
    let mut i: usize = place + 1;
    assert(below.take(0) =~= Seq::<PathPart>::empty());
    while i < len
        invariant
            place < i <= len == parts@.len(),
            below == parts@.skip(place + 1),
            any == has_names(below.take(i - place - 1)),
            text@ == joined_names(below.take(i - place - 1)),
        decreases len - i,
    {
        let ghost done = below.take(i - place - 1);
        let ghost next = below.take(i - place);
        proof {
            assert(next.drop_last() =~= done);
            assert(next.last() == parts@[i as int]);
        }
        match &parts[i] {
            PathPart::Normal(name) => {
                if any {
                    text.push('/');
                }
                text.append(name.as_str());
                proof {
                    assert(next[next.len() - 1] is Normal);
                    assert(has_names(next));
                    assert(!any ==> text@ =~= name@) by {
                        lemma_no_names(done);
                    }
                }
                any = true;
            },
            _ => {
                proof {
                    assert(has_names(next) == has_names(done)) by {
                        if has_names(next) {
                            let k = choose|k: int| 0 <= k < next.len() && (#[trigger] next[k]) is Normal;
                            assert(done[k] is Normal);
                        }
                        if has_names(done) {
                            let k = choose|k: int| 0 <= k < done.len() && (#[trigger] done[k]) is Normal;
                            assert(next[k] is Normal);
                        }
                    }
                }
            },
        }
        i = i + 1;
    }
    assert(below.take(i - place - 1) =~= below);
    if any {
        Some(text)
    } else {
        None
    }
}

proof fn lemma_no_names(parts: Seq<PathPart>)
    ensures
        !has_names(parts) ==> joined_names(parts).len() == 0,
    decreases parts.len(),
{
    if parts.len() > 0 && !has_names(parts) {
        assert(!has_names(parts.drop_last())) by {
            if has_names(parts.drop_last()) {
                let k = choose|k: int|
                    0 <= k < parts.len() - 1 && (#[trigger] parts.drop_last()[k]) is Normal;
                assert(parts[k] is Normal);
            }
        }
        lemma_no_names(parts.drop_last());
        assert(!(parts[parts.len() - 1] is Normal));
    }
}

fn replace_backslashes(chars: &Vec<char>) -> (r: Vec<char>)
    ensures
        r@ == with_slashes(chars@),
{
    let mut r: Vec<char> = Vec::new();
    let mut i: usize = 0;
    while i < chars.len()
        invariant
            i <= chars@.len(),
            r@.len() == i,
            forall|k: int| 0 <= k < i ==> r@[k] == with_slashes(chars@)[k],
        decreases chars@.len() - i,
    {
        r.push(
            if chars[i] == '\\' {
                '/'
            } else {
                chars[i]
            },
        );
        i = i + 1;
    }
    assert(r@ =~= with_slashes(chars@));
    r
}

fn strip_prefix(chars: &Vec<char>, prefix: &Vec<char>) -> (r: Vec<char>)
    ensures
        r@ == without_prefix(chars@, prefix@),
{
    let mut i: usize = 0;
    while i < prefix.len()
        invariant
            i <= prefix@.len(),
            i <= chars@.len(),
            forall|k: int| 0 <= k < i ==> chars@[k] == prefix@[k],
        decreases prefix@.len() - i,
    {
        if i >= chars.len() || chars[i] != prefix[i] {
            proof {
                if prefix@.is_prefix_of(chars@) {
                    assert(prefix@[i as int] == chars@.subrange(0, prefix@.len() as int)[i as int]);
                }
            }
            let r = part_of(chars, 0, chars.len());
            assert(r@ =~= chars@);
            return r;
        }
        i = i + 1;
    }
    let len: usize = prefix.len();
    assert(prefix@ =~= chars@.subrange(0, len as int));
    let r = part_of(chars, len, chars.len());
    assert(r@ =~= chars@.skip(len as int));
    r
}

/// The path of an object below the assets.
pub fn object_asset_path(path: &ObjectPath) -> (r: Result<String, AssetPathError>)
    ensures
        match r {
            Ok(text) => asset_path(*path) == Ok::<Seq<char>, AssetPathError>(text@),
            Err(error) => asset_path(*path) == Err::<Seq<char>, AssetPathError>(error),
        },
{
    if let Some(place) = find_assets(&path.parts) {
        if let Some(text) = names_behind(&path.parts, place) {
            return Ok(text);
        }
    }
    assert(!has_names(Seq::<PathPart>::empty()));
    if path.absolute {
        return Err(AssetPathError::OutsideAssets);
    }
    match &path.text {
        None => Err(AssetPathError::NotText),
        Some(text) => {
            let full = if path.parts.len() == 1 {
                let mut full = "objects/".to_string();
                full.append(text.as_str());
                full
            } else {
                text.as_str().to_string()
            };
            let chars = replace_backslashes(&chars_of(full.as_str()));
            Ok(string_of(&strip_prefix(&chars, &chars_of("assets/"))))
        },
    }
}

/// Text behind the last place of a character, if that is not the first place.
pub open spec fn behind_last(text: Seq<char>, c: char, n: int) -> Option<Seq<char>>
    decreases n,
{
    if n <= 1 || n > text.len() {
        None
    } else if text[n - 1] == c {
        Some(text.skip(n))
    } else {
        behind_last(text, c, n - 1)
    }
}

/// The extension of a file name in lower case; no text where it has none.
pub open spec fn extension(file_name: Seq<char>) -> Seq<char> {
    match behind_last(file_name, '.', file_name.len() as int) {
        Some(extension) => lowercase(extension),
        None => Seq::empty(),
    }
}

/// The extension of a file name in lower case; no text where it has none.
pub fn extension_of(file_name: &str) -> (r: String)
    ensures
        r@ == extension(file_name@),
{
    let chars = chars_of(file_name);
    let mut n: usize = chars.len();
    while n > 1
        invariant
            chars@ == file_name@,
            n <= chars@.len(),
            behind_last(chars@, '.', chars@.len() as int) == behind_last(chars@, '.', n as int),
        decreases n,
    {
        if chars[n - 1] == '.' {
            let part = part_of(&chars, n, chars.len());
            assert(part@ =~= chars@.skip(n as int));
            return string_of(&to_lowercase(&part));
        }
        n = n - 1;
    }
    let r = String::new();
    assert(r@ =~= Seq::<char>::empty());
    r
}

/// What kind of object a file holds.
#[derive(Clone, Copy, Debug, PartialEq, Eq, Structural)]
pub enum ObjectFormat {
    /// Meshes.
    Obj,
    /// A scene.
    Gltf,
    /// Something else.
    Unsupported,
}

pub open spec fn format_of(extension: Seq<char>) -> ObjectFormat {
    if extension == "obj"@ {
        ObjectFormat::Obj
    } else if extension == "glb"@ || extension == "gltf"@ {
        ObjectFormat::Gltf
    } else {
        ObjectFormat::Unsupported
    }
}

/// What kind of object a file holds, by its name.
pub fn object_format(file_name: &str) -> (r: ObjectFormat)
    ensures
        r == format_of(extension(file_name@)),
{
    let extension = extension_of(file_name);
    if same_text(extension.as_str(), "obj") {
        ObjectFormat::Obj
    } else if same_text(extension.as_str(), "glb") || same_text(extension.as_str(), "gltf") {
        ObjectFormat::Gltf
    } else {
        ObjectFormat::Unsupported
    }
}

/// Where an object is loaded from.
#[derive(Clone, Copy, Debug, PartialEq, Eq, Structural)]
pub enum ObjectSource {
    /// Meshes that come with the program.
    EmbeddedMeshes,
    /// Meshes in a file: among the assets, or else at the path itself.
    MeshFile,
    /// A scene among the assets.
    Scene,
    /// A scene that comes with the program, put back among the assets first.
    RestoredScene,
}

/// Why an object is not loaded.
#[derive(Clone, Copy, Debug, PartialEq, Eq, Structural)]
pub enum ObjectError {
    UnsupportedFormat,
    /// The scene is not among the assets.
    Missing,
}

/// Decides where an object is loaded from: what comes with the program goes first,
/// and a scene has to be among the assets.
pub fn object_source(format: ObjectFormat, embedded: bool, asset_exists: bool) -> (r: Result<
    ObjectSource,
    ObjectError,
>)
    ensures
        r == (match format {
            ObjectFormat::Unsupported => Err(ObjectError::UnsupportedFormat),
            ObjectFormat::Obj => if embedded {
                Ok(ObjectSource::EmbeddedMeshes)
            } else {
                Ok(ObjectSource::MeshFile)
            },
            ObjectFormat::Gltf => if asset_exists {
                Ok(ObjectSource::Scene)
            } else if embedded {
                Ok(ObjectSource::RestoredScene)
            } else {
                Err(ObjectError::Missing)
            },
        }),
{
    match format {
        ObjectFormat::Unsupported => Err(ObjectError::UnsupportedFormat),
        ObjectFormat::Obj => if embedded {
            Ok(ObjectSource::EmbeddedMeshes)
        } else {
            Ok(ObjectSource::MeshFile)
        },
        ObjectFormat::Gltf => if asset_exists {
            Ok(ObjectSource::Scene)
        } else if embedded {
            Ok(ObjectSource::RestoredScene)
        } else {
            Err(ObjectError::Missing)
        },
    }
}

} // verus!
