use vstd::prelude::*;
use crate::text::{chars_of, string_from_chars};

verus! {

/// The four files an icon may have under one size directory of a theme:
/// PNG before SVG, `apps` before `devices`.
pub open spec fn size_block(theme: Seq<char>, size: Seq<char>, name: Seq<char>) -> Seq<Seq<char>> {
    let dir = theme + "/"@ + size;
    seq![
        dir + "/apps/"@ + name + ".png"@,
        dir + "/devices/"@ + name + ".png"@,
        dir + "/apps/"@ + name + ".svg"@,
        dir + "/devices/"@ + name + ".svg"@,
    ]
}

/// The files an icon may have in one theme directory, in search order:
/// each size from the largest down to `scalable`, then the directory itself.
pub open spec fn theme_block(theme: Seq<char>, name: Seq<char>) -> Seq<Seq<char>> {
    size_block(theme, "256x256"@, name) + size_block(theme, "128x128"@, name) + size_block(
        theme,
        "64x64"@,
        name,
    ) + size_block(theme, "48x48"@, name) + size_block(theme, "32x32"@, name) + size_block(
        theme,
        "16x16"@,
        name,
    ) + size_block(theme, "scalable"@, name) + seq![
        theme + "/"@ + name + ".png"@,
        theme + "/"@ + name + ".svg"@,
    ]
}

/// Where an icon called `name` is looked for, in order, for a user whose
/// home directory is `home`.
pub open spec fn icon_search_paths(name: Seq<char>, home: Seq<char>) -> Seq<Seq<char>> {
    theme_block(home + "/.local/share/icons"@, name) + theme_block("/usr/share/icons/hicolor"@, name)
        + theme_block("/usr/share/pixmaps"@, name)
}

pub open spec fn strings_view(v: Seq<String>) -> Seq<Seq<char>> {
    v.map_values(|s: String| s@)
}

fn cat(a: &Vec<char>, b: &str) -> (r: Vec<char>)
    ensures
        r@ == a@ + b@,
{
    let mut r = a.clone();
    assert(r@ == a@);
    let bc = chars_of(b);
    let mut i: usize = 0;
    while i < bc.len()
        invariant
            i <= bc@.len(),
            bc@ == b@,
            r@ == a@ + bc@.take(i as int),
        decreases bc@.len() - i,
    {
        r.push(bc[i]);
        assert(bc@.take(i + 1) =~= bc@.take(i as int).push(bc@[i as int]));
        i += 1;
    }
    assert(bc@.take(bc@.len() as int) =~= bc@);
    r
}

fn cat_chars(a: &Vec<char>, b: &Vec<char>) -> (r: Vec<char>)
    ensures
        r@ == a@ + b@,
{
    let mut r = a.clone();
    assert(r@ == a@);
    let mut i: usize = 0;
    while i < b.len()
        invariant
            i <= b@.len(),
            r@ == a@ + b@.take(i as int),
        decreases b@.len() - i,
    {
        r.push(b[i]);
        assert(b@.take(i + 1) =~= b@.take(i as int).push(b@[i as int]));
        i += 1;
    }
    assert(b@.take(b@.len() as int) =~= b@);
    r
}

/// `dir + sub + name + ext` as a string.
fn path_of(dir: &Vec<char>, sub: &str, name: &Vec<char>, ext: &str) -> (r: String)
    ensures
        r@ == dir@ + sub@ + name@ + ext@,
{
    let a = cat(dir, sub);
    let b = cat_chars(&a, name);
    let c = cat(&b, ext);
    string_from_chars(&c)
}

fn push_size_block(r: &mut Vec<String>, theme: &Vec<char>, size: &str, name: &Vec<char>)
    ensures
        strings_view(final(r)@) == strings_view(old(r)@) + size_block(theme@, size@, name@),
{
    let slash = cat(theme, "/");
    let dir = cat(&slash, size);
    r.push(path_of(&dir, "/apps/", name, ".png"));
    r.push(path_of(&dir, "/devices/", name, ".png"));
    r.push(path_of(&dir, "/apps/", name, ".svg"));
    r.push(path_of(&dir, "/devices/", name, ".svg"));
    assert(strings_view(r@) =~= strings_view(old(r)@) + size_block(theme@, size@, name@));
}

fn push_theme_block(r: &mut Vec<String>, theme: &Vec<char>, name: &Vec<char>)
    ensures
        strings_view(final(r)@) == strings_view(old(r)@) + theme_block(theme@, name@),
{
    let ghost start = strings_view(r@);
    push_size_block(r, theme, "256x256", name);
    push_size_block(r, theme, "128x128", name);
    assert(strings_view(r@) =~= start + (size_block(theme@, "256x256"@, name@) + size_block(theme@, "128x128"@, name@)));
    push_size_block(r, theme, "64x64", name);
    assert(strings_view(r@) =~= start + (size_block(theme@, "256x256"@, name@) + size_block(theme@, "128x128"@, name@) + size_block(theme@, "64x64"@, name@)));
    push_size_block(r, theme, "48x48", name);
    assert(strings_view(r@) =~= start + (size_block(theme@, "256x256"@, name@) + size_block(theme@, "128x128"@, name@) + size_block(theme@, "64x64"@, name@) + size_block(theme@, "48x48"@, name@)));
    push_size_block(r, theme, "32x32", name);
    assert(strings_view(r@) =~= start + (size_block(theme@, "256x256"@, name@) + size_block(theme@, "128x128"@, name@) + size_block(theme@, "64x64"@, name@) + size_block(theme@, "48x48"@, name@) + size_block(theme@, "32x32"@, name@)));
    push_size_block(r, theme, "16x16", name);
    assert(strings_view(r@) =~= start + (size_block(theme@, "256x256"@, name@) + size_block(theme@, "128x128"@, name@) + size_block(theme@, "64x64"@, name@) + size_block(theme@, "48x48"@, name@) + size_block(theme@, "32x32"@, name@) + size_block(theme@, "16x16"@, name@)));
    push_size_block(r, theme, "scalable", name);
    assert(strings_view(r@) =~= start + (size_block(theme@, "256x256"@, name@) + size_block(theme@, "128x128"@, name@) + size_block(theme@, "64x64"@, name@) + size_block(theme@, "48x48"@, name@) + size_block(theme@, "32x32"@, name@) + size_block(theme@, "16x16"@, name@) + size_block(theme@, "scalable"@, name@)));
    let ghost mid = strings_view(r@);
    let png = path_of(theme, "/", name, ".png");
    let svg = path_of(theme, "/", name, ".svg");
    r.push(png);
    assert(strings_view(r@) =~= mid.push(png@));
    r.push(svg);
    assert(strings_view(r@) =~= mid + seq![png@, svg@]);
    assert(strings_view(r@) =~= start + theme_block(theme@, name@));
}

/// The files to look for an icon called `icon_name` in, in order, for a
/// user whose home directory is `home`.
pub fn icon_candidates(icon_name: &str, home: &str) -> (r: Vec<String>)
    ensures
        strings_view(r@) == icon_search_paths(icon_name@, home@),
{
    let name = chars_of(icon_name);
    let home_chars = chars_of(home);
    let user_theme = cat(&home_chars, "/.local/share/icons");
    let hicolor = chars_of("/usr/share/icons/hicolor");
    let pixmaps = chars_of("/usr/share/pixmaps");
    let mut r: Vec<String> = Vec::new();
    assert(strings_view(r@) =~= Seq::<Seq<char>>::empty());
    push_theme_block(&mut r, &user_theme, &name);
    push_theme_block(&mut r, &hicolor, &name);
    push_theme_block(&mut r, &pixmaps, &name);
    assert(strings_view(r@) =~= icon_search_paths(icon_name@, home@));
    r
}

} // verus!
