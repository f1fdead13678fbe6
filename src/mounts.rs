//! Mount targets, overlay options and the reading of the kernel's mount table.

use vstd::prelude::*;
use vstd::string::*;
use vstd::utf8::encode_utf8;

use crate::config::Role;

verus! {

/// The directory that receives the packages of `role`.
pub open spec fn target_dir(role: Role) -> Seq<char> {
    match role {
        Role::SystemApp => "/system/app"@,
        Role::PrivilegedApp => "/system/priv-app"@,
    }
}

/// Where package `name` of `role` is mounted.
pub open spec fn target_of(role: Role, name: Seq<char>) -> Seq<char> {
    target_dir(role) + "/"@ + name
}

/// The mount target of package `name` for `role`.
pub fn target_path(role: Role, name: &str) -> (r: String)
    ensures
        r@ == target_of(role, name@),
{
    let mut r = match role {
        Role::SystemApp => String::from_str("/system/app"),
        Role::PrivilegedApp => String::from_str("/system/priv-app"),
    };
    r.append("/");
    r.append(name);
    r
}

/// The option string of an overlay mount over `lower`, with `upper` and `work`.
pub open spec fn overlay_options_of(lower: Seq<char>, upper: Seq<char>, work: Seq<char>) -> Seq<
    char,
> {
    "lowerdir="@ + lower + ",upperdir="@ + upper + ",workdir="@ + work
}

/// The option string of an overlay mount over `lower`, with `upper` and `work`.
pub fn overlay_options(lower: &str, upper: &str, work: &str) -> (r: String)
    ensures
        r@ == overlay_options_of(lower@, upper@, work@),
{
    let mut r = String::from_str("lowerdir=");
    r.append(lower);
    r.append(",upperdir=");
    r.append(upper);
    r.append(",workdir=");
    r.append(work);
    r
}

/// A byte that ends a field of the mount table.
pub open spec fn is_separator(b: u8) -> bool {
    b == 32u8 || b == 10u8
}

/// The end of the field that starts at `from`: the first separator at or
/// after it, or the end of the table.
pub open spec fn field_end(t: Seq<u8>, from: int) -> int
    decreases t.len() - from,
{
    if from < 0 || from >= t.len() || is_separator(t[from]) {
        from
    } else {
        field_end(t, from + 1)
    }
}

/// A line of the table starts at `s`.
pub open spec fn is_line_start(t: Seq<u8>, s: int) -> bool {
    0 <= s < t.len() && (s == 0 || t[s - 1] == 10u8)
}

/// The second field (the mount point) of the line that starts at `s`, if
/// the line has one.
pub open spec fn mount_point_at(t: Seq<u8>, s: int) -> Option<Seq<u8>> {
    let a = field_end(t, s);
    if a < t.len() && t[a] == 32u8 {
        Some(t.subrange(a + 1, field_end(t, a + 1)))
    } else {
        None
    }
}

/// Some line of the mount table has `target` for its mount point.
pub open spec fn lists_mount_point(t: Seq<u8>, target: Seq<u8>) -> bool {
    exists|s: int| is_line_start(t, s) && #[trigger] mount_point_at(t, s) == Some(target)
}

proof fn lemma_field_end_bounds(t: Seq<u8>, from: int)
    requires
        0 <= from <= t.len(),
    ensures
        from <= field_end(t, from) <= t.len(),
        forall|k: int| from <= k < field_end(t, from) ==> !is_separator(#[trigger] t[k]),
        field_end(t, from) < t.len() ==> is_separator(t[field_end(t, from)]),
    decreases t.len() - from,
{
    if from < t.len() && !is_separator(t[from]) {
        lemma_field_end_bounds(t, from + 1);
    }
}

fn find_field_end(t: &Vec<u8>, from: usize) -> (r: usize)
    requires
        from <= t@.len(),
    ensures
        r as int == field_end(t@, from as int),
{
    let mut i = from;
    while i < t.len() && t[i] != 32u8 && t[i] != 10u8
        invariant
            from <= i <= t@.len(),
            field_end(t@, from as int) == field_end(t@, i as int),
        decreases t.len() - i,
    {
        i = i + 1;
    }
    i
}

fn bytes_equal_at(t: &Vec<u8>, a: usize, e: usize, target: &Vec<u8>) -> (r: bool)
    requires
        a <= e <= t@.len(),
    ensures
        r == (t@.subrange(a as int, e as int) == target@),
{
    if e - a != target.len() {
        return false;
    }
    let mut k: usize = 0;
    while k < target.len()
        invariant
            e - a == target@.len(),
            a <= e <= t@.len(),
            k <= target@.len(),
            forall|m: int| 0 <= m < k ==> t@[a + m] == target@[m],
        decreases target.len() - k,
    {
        if t[a + k] != target[k] {
            assert(t@.subrange(a as int, e as int)[k as int] != target@[k as int]);
            return false;
        }
        k = k + 1;
    }
    assert(t@.subrange(a as int, e as int) =~= target@);
    true
}

/// Returns whether the mount table `table` (in the layout of
/// `/proc/self/mounts`: one mount per line, fields separated by spaces, the
/// mount point second) lists `target` as a mount point.
pub fn is_mounted_in(table: &str, target: &str) -> (r: bool)
    ensures
        r == lists_mount_point(table.spec_bytes(), target.spec_bytes()),
{
    let t = table.as_bytes_vec();
    let want = target.as_bytes_vec();
    let mut s: usize = 0;
    while s < t.len()
        invariant
            t@ == table.spec_bytes(),
            want@ == target.spec_bytes(),
            s <= t@.len(),
            forall|k: int|
                0 <= k < s && is_line_start(t@, k) ==> #[trigger] mount_point_at(t@, k) != Some(
                    want@,
                ),
        decreases t.len() - s,
    {
        if s == 0 || t[s - 1] == 10u8 {
            let a = find_field_end(&t, s);
            proof {
                lemma_field_end_bounds(t@, s as int);
            }
            if a < t.len() && t[a] == 32u8 {
                let e = find_field_end(&t, a + 1);
                proof {
                    lemma_field_end_bounds(t@, a + 1);
                }
                if bytes_equal_at(&t, a + 1, e, &want) {
                    assert(is_line_start(t@, s as int) && mount_point_at(t@, s as int) == Some(
                        want@,
                    ));
                    return true;
                }
            }
        }
        s = s + 1;
    }
    false
}

/// Returns whether package `name` of `role` is mounted according to `table`.
pub fn is_mounted(table: &str, role: Role, name: &str) -> (r: bool)
    ensures
        r == lists_mount_point(encode_utf8(table@), encode_utf8(target_of(role, name@))),
{
    let target = target_path(role, name);
    is_mounted_in(table, target.as_str())
}

} // verus!
