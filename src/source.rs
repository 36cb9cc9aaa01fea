//! The rules that pick definition files out of a directory listing and find
//! the texture that a definition refers to.
use vstd::prelude::*;
use vstd::string::{StringExecFns, StringSliceAdditionalSpecFns};

verus! {

/// A file name whose extension is `ron`: it ends in `.ron` after a
/// non-empty stem (a bare `.ron` is a hidden file without extension).
pub open spec fn is_definition_name(name: Seq<u8>) -> bool {
    &&& name.len() > 4
    &&& name.subrange(name.len() - 4, name.len() as int) == seq![46u8, 114u8, 111u8, 110u8]
}

/// Whether the file `file_name` (a name, not a path) is a tile definition.
pub fn is_definition_file(file_name: &str) -> (r: bool)
    ensures
        r == is_definition_name(file_name.spec_bytes()),
{
    let b = file_name.as_bytes();
    let n = b.len();
    if n <= 4 {
        return false;
    }
    let r = b[n - 4] == 46u8 && b[n - 3] == 114u8 && b[n - 2] == 111u8 && b[n - 1] == 110u8;
    proof {
        let tail = b@.subrange(n - 4, n as int);
        if r {
            assert(tail =~= seq![46u8, 114u8, 111u8, 110u8]);
        } else {
            assert(tail[0] != 46u8 || tail[1] != 114u8 || tail[2] != 111u8 || tail[3] != 110u8);
        }
    }
    r
}

/// The asset path of a texture: `texture` inside the directory `texture_dir`.
pub open spec fn texture_path_of(texture_dir: Seq<char>, texture: Seq<char>) -> Seq<char> {
    if texture_dir.len() == 0 {
        texture
    } else {
        texture_dir + seq!['/'] + texture
    }
}

/// The asset path under which the texture `texture` of a definition read
/// for the texture directory `texture_dir` is loaded.
pub fn texture_path(texture_dir: &str, texture: &str) -> (r: String)
    ensures
        r@ == texture_path_of(texture_dir@, texture@),
{
    if texture_dir.is_empty() {
        return texture.to_string();
    }
    let mut path = texture_dir.to_string();
    path.append("/");
    path.append(texture);
    proof {
        reveal_strlit("/");
    }
    path
}

} // verus!
