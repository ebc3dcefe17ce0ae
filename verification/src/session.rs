//! Non-persisted editor-session state: the panel structs that hold modal
//! flags and pending names, and the pure name-validation rules applied
//! before a cel or animation is created.

use crate::animation::Animation;
use crate::cel::AnimationCel;
use crate::parse::str_eq;
use vstd::prelude::*;
use vstd::string::StrSliceExecFns;
use vstd::string::StringExecFns;

verus! {

/// State of the cel-list panel: creation and deletion modals and the names
/// they are editing.
pub struct AnimationCellsPanel {
    pub creation_modal_open: bool,
    pub deletion_confirmation_modal_open: bool,
    pub cell_name: String,
    pub deleting_cell: Option<String>,
}

impl AnimationCellsPanel {
    /// A fresh panel: no modal open, no pending names.
    pub fn init() -> (r: AnimationCellsPanel)
        ensures
            !r.creation_modal_open,
            !r.deletion_confirmation_modal_open,
            r.cell_name@ == Seq::<char>::empty(),
            r.deleting_cell is None,
    {
        AnimationCellsPanel {
            creation_modal_open: false,
            deletion_confirmation_modal_open: false,
            cell_name: String::new(),
            deleting_cell: None,
        }
    }
}

/// State of the top bar: the animation creation and deletion modals and the
/// names they are editing.
pub struct Topbar {
    pub animation_creation_modal_open: bool,
    pub animation_deletion_modal_open: bool,
    pub deleting_anim: Option<String>,
    pub animation_name: String,
}

impl Topbar {
    /// A fresh top bar: no modal open, no pending names.
    pub fn init() -> (r: Topbar)
        ensures
            !r.animation_creation_modal_open,
            !r.animation_deletion_modal_open,
            r.deleting_anim is None,
            r.animation_name@ == Seq::<char>::empty(),
    {
        Topbar {
            animation_creation_modal_open: false,
            animation_deletion_modal_open: false,
            deleting_anim: None,
            animation_name: String::new(),
        }
    }
}

/// Whether a character counts as alphabetic under Unicode.  The result
/// depends on the character alone.
pub uninterp spec fn is_alphabetic_char(c: char) -> bool;

/// Relies on `char::is_alphabetic`: the Unicode `Alphabetic` property of
/// the character.
#[verifier::external_body]
fn char_is_alphabetic(c: char) -> (r: bool)
    ensures
        r == is_alphabetic_char(c),
{
    c.is_alphabetic()
}

/// Whether some cel already carries this name.
pub open spec fn spec_cel_name_used(cels: Seq<AnimationCel>, name: Seq<char>) -> bool {
    exists|i: int| 0 <= i < cels.len() && (#[trigger] cels[i]).name@ == name
}

/// Whether some animation already carries this name.
pub open spec fn spec_anim_name_used(anims: Seq<Animation>, name: Seq<char>) -> bool {
    exists|i: int| 0 <= i < anims.len() && (#[trigger] anims[i]).name@ == name
}

/// Reason a proposed cel name cannot be used, or `None` when it is
/// acceptable; an empty name draws no message, it only disables creation.
pub fn is_cell_name_invalid(cell_name: &str, animation_cels: &Vec<AnimationCel>) -> (r: Option<
    String,
>)
    ensures
        cell_name@.len() == 0 ==> r is None,
        cell_name@.len() > 0 && cell_name@.contains(' ') ==> r is Some && (r->0)@
            == "Cell name must not contain spaces"@,
        cell_name@.len() > 0 && !cell_name@.contains(' ') && !is_alphabetic_char(cell_name@[0])
            ==> r is Some && (r->0)@ == "First character in cell name must be a letter"@,
        cell_name@.len() > 0 && !cell_name@.contains(' ') && is_alphabetic_char(cell_name@[0])
            && spec_cel_name_used(animation_cels@, cell_name@) ==> r is Some && (r->0)@
            == "Cell name has already been used"@,
        cell_name@.len() > 0 && !cell_name@.contains(' ') && is_alphabetic_char(cell_name@[0])
            && !spec_cel_name_used(animation_cels@, cell_name@) ==> r is None,
{
    let n = cell_name.unicode_len();
    if n == 0 {
        return None;
    }
    let mut i: usize = 0;
    let mut has_space = false;
    while i < n
        invariant
            n == cell_name@.len(),
            i <= n,
            has_space == exists|m: int| 0 <= m < i && cell_name@[m] == ' ',
        decreases n - i,
    {
        if cell_name.get_char(i) == ' ' {
            has_space = true;
        }
        i = i + 1;
    }
    proof {
        if has_space {
            let m = choose|m: int| 0 <= m < n && cell_name@[m] == ' ';
            assert(cell_name@.contains(' '));
        } else {
            if cell_name@.contains(' ') {
                let m = choose|m: int| 0 <= m < cell_name@.len() && cell_name@[m] == ' ';
                assert(false);
            }
        }
    }
    if has_space {
        return Some(String::from_str("Cell name must not contain spaces"));
    }
    if !char_is_alphabetic(cell_name.get_char(0)) {
        return Some(String::from_str("First character in cell name must be a letter"));
    }
    let mut j: usize = 0;
    let mut used = false;
    while j < animation_cels.len()
        invariant
            j <= animation_cels@.len(),
            used == exists|m: int|
                0 <= m < j && (#[trigger] animation_cels@[m]).name@ == cell_name@,
        decreases animation_cels@.len() - j,
    {
        if str_eq(animation_cels[j].name.as_str(), cell_name) {
            used = true;
        }
        j = j + 1;
    }
    if used {
        return Some(String::from_str("Cell name has already been used"));
    }
    None
}

/// Reason a proposed animation name cannot be used, or `None` when it is
/// acceptable; an empty name draws no message, it only disables creation.
pub fn is_anim_name_invalid(anim_name: &str, animations: &Vec<Animation>) -> (r: Option<String>)
    ensures
        anim_name@.len() == 0 ==> r is None,
        anim_name@.len() > 0 && anim_name@.contains(' ') ==> r is Some && (r->0)@
            == "Animation name must not contain spaces"@,
        anim_name@.len() > 0 && !anim_name@.contains(' ') && !is_alphabetic_char(anim_name@[0])
            ==> r is Some && (r->0)@ == "First character in animation name must be a letter"@,
        anim_name@.len() > 0 && !anim_name@.contains(' ') && is_alphabetic_char(anim_name@[0])
            && spec_anim_name_used(animations@, anim_name@) ==> r is Some && (r->0)@
            == "Animation name has already been used"@,
        anim_name@.len() > 0 && !anim_name@.contains(' ') && is_alphabetic_char(anim_name@[0])
            && !spec_anim_name_used(animations@, anim_name@) ==> r is None,
{
    let n = anim_name.unicode_len();
    if n == 0 {
        return None;
    }
    let mut i: usize = 0;
    let mut has_space = false;
    while i < n
        invariant
            n == anim_name@.len(),
            i <= n,
            has_space == exists|m: int| 0 <= m < i && anim_name@[m] == ' ',
        decreases n - i,
    {
        if anim_name.get_char(i) == ' ' {
            has_space = true;
        }
        i = i + 1;
    }
    proof {
        if has_space {
            let m = choose|m: int| 0 <= m < n && anim_name@[m] == ' ';
            assert(anim_name@.contains(' '));
        } else {
            if anim_name@.contains(' ') {
                let m = choose|m: int| 0 <= m < anim_name@.len() && anim_name@[m] == ' ';
                assert(false);
            }
        }
    }
    if has_space {
        return Some(String::from_str("Animation name must not contain spaces"));
    }
    if !char_is_alphabetic(anim_name.get_char(0)) {
        return Some(String::from_str("First character in animation name must be a letter"));
    }
    let mut j: usize = 0;
    let mut used = false;
    while j < animations.len()
        invariant
            j <= animations@.len(),
            used == exists|m: int| 0 <= m < j && (#[trigger] animations@[m]).name@ == anim_name@,
        decreases animations@.len() - j,
    {
        if str_eq(animations[j].name.as_str(), anim_name) {
            used = true;
        }
        j = j + 1;
    }
    if used {
        return Some(String::from_str("Animation name has already been used"));
    }
    None
}

} // verus!
