//! The CSS build step's place in the output tree.
//!
//! The CSS compiler itself is an external tool run by the surrounding
//! application; the library only pins where its asset lands inside
//! the output root.

use vstd::prelude::*;

use crate::text::from_chars;
use crate::text::join_path;
use crate::text::join_path_exec;
use crate::text::to_chars;

verus! {

/// The file name of the generated CSS asset, `tailwind.css`.
pub open spec fn css_asset_name() -> Seq<char> {
    seq!['t', 'a', 'i', 'l', 'w', 'i', 'n', 'd', '.', 'c', 's', 's']
}

/// The CSS build step.
pub struct Tailwind {}

impl Tailwind {
    /// Where the CSS asset is written: `tailwind.css` inside the
    /// output root.
    pub fn output_css_path(output_root: &str) -> (r: String)
        ensures
            r@ == join_path(output_root@, css_asset_name()),
    {
        let root_chars = to_chars(output_root);
        let mut name: Vec<char> = Vec::new();
        name.push('t');
        name.push('a');
        name.push('i');
        name.push('l');
        name.push('w');
        name.push('i');
        name.push('n');
        name.push('d');
        name.push('.');
        name.push('c');
        name.push('s');
        name.push('s');
        proof {
            assert(name@ =~= css_asset_name());
        }
        let joined = join_path_exec(&root_chars, &name);
        from_chars(&joined)
    }
}

} // verus!
