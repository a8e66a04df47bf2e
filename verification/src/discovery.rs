//! Which header files are documented, and where their pages go.

use vstd::prelude::*;
use crate::text::{
    chars_of, ends_with, has_suffix, replace, replace_vec, rfind, rfind_pos, rsplit_once,
    rsplit_once_vec, slice_copy, string_from,
};

verus! {

/// The file name has the extension `h`: there is a `.` that is not its
/// first character, and `h` is all that follows the last `.`.
pub open spec fn has_h_extension(name: Seq<char>) -> bool {
    match rfind(name, seq!['.']) {
        Some(i) => i > 0 && name.skip(i + 1) == seq!['h'],
        None => false,
    }
}

/// A header is documented when its extension is `h` and its name does not
/// end with `_internal.h`.
pub open spec fn is_public_header_spec(name: Seq<char>) -> bool {
    has_h_extension(name) && !ends_with(name, "_internal.h"@)
}

/// Whether the header file named `name` is documented.
pub fn is_public_header(name: &str) -> (res: bool)
    ensures
        res == is_public_header_spec(name@),
{
    let v = chars_of(name);
    let n = v.len();
    let dot = vec!['.'];
    assert(dot@ =~= seq!['.']);
    let has_h = match rfind_pos(&v, &dot) {
        Some(i) => {
            proof {
                crate::text::lemma_rfind_below_bounds(v@, dot@, v@.len() + 1int);
            }
            if i > 0 {
                let rest = slice_copy(&v, i + 1, n);
                assert(rest@ =~= v@.skip(i + 1));
                rest.len() == 1 && rest[0] == 'h'
            } else {
                false
            }
        },
        None => false,
    };
    assert(has_h == has_h_extension(v@)) by {
        if let Some(i) = rfind(v@, seq!['.']) {
            if i > 0 && v@.skip(i + 1).len() == 1 && v@.skip(i + 1)[0] == 'h' {
                assert(v@.skip(i + 1) =~= seq!['h']);
            }
        }
    }
    let internal = chars_of("_internal.h");
    has_h && !has_suffix(&v, &internal)
}

/// The directory, relative to the output directory, of the pages of the
/// header at `path`: what follows the last `include/`, with every `.h`
/// removed; empty when the path has no `include/`.
pub open spec fn header_output_dir_spec(path: Seq<char>) -> Seq<char> {
    match rsplit_once(path, "include/"@) {
        Some((_, file)) => replace(file, ".h"@, Seq::empty()),
        None => Seq::empty(),
    }
}

/// The directory of the pages of the header at `path`.
pub fn header_output_dir(path: &str) -> (res: String)
    ensures
        res@ == header_output_dir_spec(path@),
{
    let v = chars_of(path);
    let marker = chars_of("include/");
    match rsplit_once_vec(&v, &marker) {
        Some((_, file)) => {
            let ext = chars_of(".h");
            proof {
                reveal_strlit(".h");
            }
            let nothing: Vec<char> = Vec::new();
            assert(nothing@ =~= Seq::<char>::empty());
            let dir = replace_vec(&file, &ext, &nothing);
            string_from(&dir)
        },
        None => String::new(),
    }
}

} // verus!
