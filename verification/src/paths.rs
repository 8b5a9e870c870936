//! Paths as text.

use vstd::prelude::*;

use crate::text::{fields, fields_spec, has_infix, has_text, same_text, views, CharClass};
use crate::text_laws::{law_dividers_divide, law_fields_are_parts, law_undivided_texts};

verus! {

/// Whether a slash-separated path starts at the root.
pub open spec fn is_absolute_spec(path: Seq<char>) -> bool {
    path.len() > 0 && path[0] == '/'
}

/// Whether the path steps up to a parent directory.
pub open spec fn has_parent_step(path: Seq<char>) -> bool {
    fields_spec(path, CharClass::Only('/')).contains(".."@)
}

/// Whether the path stays below the directory it is taken from.
pub open spec fn stays_inside_spec(path: Seq<char>) -> bool {
    !is_absolute_spec(path) && !has_parent_step(path)
}

/// The path of `name` below `dir`.
pub open spec fn path_join_spec(dir: Seq<char>, name: Seq<char>) -> Seq<char> {
    if is_absolute_spec(name) {
        name
    } else if dir.len() == 0 || dir.last() == '/' {
        dir + name
    } else {
        dir + "/"@ + name
    }
}

pub fn path_join(dir: &str, name: &str) -> (res: String)
    ensures
        res@ == path_join_spec(dir@, name@),
{
    if is_absolute(name) {
        return name.to_string();
    }
    let x = crate::text::chars_of(dir);
    if x.len() == 0 || x[x.len() - 1] == '/' {
        dir.to_string().concat(name)
    } else {
        dir.to_string().concat("/").concat(name)
    }
}

pub fn is_absolute(path: &str) -> (res: bool)
    ensures
        res == is_absolute_spec(path@),
{
    let x = crate::text::chars_of(path);
    x.len() > 0 && x[0] == '/'
}

pub fn stays_inside(path: &str) -> (res: bool)
    ensures
        res == stays_inside_spec(path@),
{
    !is_absolute(path) && !has_text(&fields(path, CharClass::Only('/')), "..")
}

/// The steps among these parts of a path that lead somewhere: neither empty nor
/// a stay in place.
pub open spec fn steps_spec(parts: Seq<Seq<char>>) -> Seq<Seq<char>>
    decreases parts.len(),
{
    if parts.len() == 0 {
        parts
    } else {
        let before = steps_spec(parts.drop_last());
        if parts.last().len() == 0 || parts.last() == "."@ {
            before
        } else {
            before.push(parts.last())
        }
    }
}

/// The components of a path: the root where the path starts at it, a leading
/// stay in place, and every step.
pub open spec fn components_spec(path: Seq<char>) -> Seq<Seq<char>> {
    let parts = fields_spec(path, CharClass::Only('/'));
    let front: Seq<Seq<char>> = if is_absolute_spec(path) {
        seq!["/"@]
    } else if parts[0] == "."@ {
        seq!["."@]
    } else {
        Seq::empty()
    };
    front + steps_spec(parts)
}

pub fn components(path: &str) -> (res: Vec<String>)
    ensures
        views(res@) == components_spec(path@),
{
    let parts = fields(path, CharClass::Only('/'));
    let ghost all = views(parts@);
    let mut res: Vec<String> = Vec::new();
    if is_absolute(path) {
        res.push("/".to_string());
    } else if same_text(parts[0].as_str(), ".") {
        res.push(".".to_string());
    }
    assert(parts@[0]@ == all[0]);
    let ghost front: Seq<Seq<char>> = if is_absolute_spec(path@) {
        seq!["/"@]
    } else if all[0] == "."@ {
        seq!["."@]
    } else {
        Seq::empty()
    };
    assert(views(res@) =~= front + steps_spec(all.take(0)));
    let mut i: usize = 0;
    while i < parts.len()
        invariant
            i <= parts@.len(),
            all == views(parts@),
            views(res@) == front + steps_spec(all.take(i as int)),
        decreases parts@.len() - i,
    {
        let ghost done = views(res@);
        assert(all.take(i + 1).drop_last() =~= all.take(i as int));
        assert(all.take(i + 1).last() == parts@[i as int]@);
        if !parts[i].as_str().is_empty() && !same_text(parts[i].as_str(), ".") {
            res.push(parts[i].clone());
            assert(views(res@) =~= done.push(parts@[i as int]@));
            assert(views(res@) =~= front + steps_spec(all.take(i + 1)));
        }
        i += 1;
    }
    assert(all.take(i as int) =~= all);
    res
}

/// A path that starts at the root, or that has a step up to a parent directory
/// anywhere, leaves the directory it is taken from.
pub proof fn law_steps_up_lead_outside(before: Seq<char>, after: Seq<char>)
    requires
        before.len() > 0 ==> before.last() == '/',
        after.len() > 0 ==> after[0] == '/',
    ensures
        !stays_inside_spec(before + ".."@ + after),
        !stays_inside_spec("/"@ + after),
{
    reveal_strlit("..");
    reveal_strlit("/");
    let class = CharClass::Only('/');
    let up = ".."@;
    assert forall|k: int| 0 <= k < up.len() implies !class.has(#[trigger] up[k]) by {}
    law_undivided_texts(up, class);
    let tail = up + after;
    let rest = fields_spec(tail, class);
    if after.len() == 0 {
        assert(tail =~= up);
    } else {
        law_dividers_divide(up, '/', after.drop_first(), class);
        assert(up.push('/') + after.drop_first() =~= tail);
    }
    assert(rest[0] == up);
    let whole = before + up + after;
    let all = fields_spec(whole, class);
    if before.len() == 0 {
        assert(whole =~= tail);
        assert(all[0] == up);
    } else {
        let front = before.drop_last();
        law_dividers_divide(front, '/', tail, class);
        assert(front.push('/') + tail =~= whole);
        assert(all[fields_spec(front, class).len() as int] == up);
    }
    assert(all.contains(up));
    assert(("/"@ + after)[0] == '/');
}

/// A path that does not start at the root and has no two periods in it stays
/// inside.
pub proof fn law_plain_paths_stay_inside(path: Seq<char>)
    requires
        path.len() > 0 ==> path[0] != '/',
        !has_infix(path, ".."@),
    ensures
        stays_inside_spec(path),
{
    law_fields_are_parts(path, CharClass::Only('/'));
    let all = fields_spec(path, CharClass::Only('/'));
    if all.contains(".."@) {
        let k = choose|k: int| 0 <= k < all.len() && all[k] == ".."@;
        assert(has_infix(path, all[k]));
    }
}

/// A name is put below a directory with one slash between them. A name that
/// starts at the root stands for itself.
pub proof fn law_names_are_put_below(dir: Seq<char>, name: Seq<char>)
    ensures
        name.len() > 0 && name[0] == '/' ==> path_join_spec(dir, name) == name,
        (name.len() == 0 || name[0] != '/') && dir.len() > 0 && dir.last() != '/'
            ==> path_join_spec(dir, name) == dir + "/"@ + name,
        (name.len() == 0 || name[0] != '/') && (dir.len() == 0 || dir.last() == '/')
            ==> path_join_spec(dir, name) == dir + name,
{
}

} // verus!
