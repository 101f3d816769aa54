//! Where an application icon named by a notification may be found: the icon theme
//! directories to search and, in each, the files to try, in the order they are tried.
use vstd::prelude::*;
use crate::chars::{chars_of, starts_with, string_from_chars};

verus! {

/// Path `b` joined onto path `a`: `b` itself when it is absolute or `a` is empty, and
/// otherwise `a`, a `/` unless `a` ends with one, and `b`.
pub open spec fn path_join(a: Seq<char>, b: Seq<char>) -> Seq<char> {
    if b.len() > 0 && b[0] == '/' {
        b
    } else if a.len() == 0 {
        b
    } else if a.last() == '/' {
        a + b
    } else {
        a + seq!['/'] + b
    }
}

/// `~/`.
pub open spec fn tilde_slash() -> Seq<char> {
    seq!['~', '/']
}

/// `s` without the `~/` it begins with, however many times over.
pub open spec fn trim_tilde(s: Seq<char>) -> Seq<char>
    decreases s.len(),
{
    if starts_with(s, tilde_slash()) {
        trim_tilde(s.skip(2))
    } else {
        s
    }
}

/// `path` with a leading `~/` standing for the home directory `home`, when it is known.
pub open spec fn expanded(path: Seq<char>, home: Option<Seq<char>>) -> Seq<char> {
    match home {
        Some(h) => if starts_with(path, tilde_slash()) {
            path_join(h, trim_tilde(path))
        } else {
            path
        },
        None => path,
    }
}

/// `s` without its trailing `/`s.
pub open spec fn trim_trailing_slashes(s: Seq<char>) -> Seq<char>
    decreases s.len(),
{
    if s.len() > 0 && s.last() == '/' {
        trim_trailing_slashes(s.drop_last())
    } else {
        s
    }
}

/// The parts of `s` between its `:`s, in order; an empty part counts.
pub open spec fn colon_parts(s: Seq<char>) -> Seq<Seq<char>>
    decreases s.len(),
{
    if s.len() == 0 {
        seq![Seq::empty()]
    } else {
        let p = colon_parts(s.drop_last());
        if s.last() == ':' {
            p.push(Seq::empty())
        } else {
            p.update(p.len() - 1, p.last().push(s.last()))
        }
    }
}

/// `/icons`.
pub open spec fn icons_suffix() -> Seq<char> {
    seq!['/', 'i', 'c', 'o', 'n', 's']
}

/// The fixed icon directories, `~/` standing for the home directory.
pub open spec fn fixed_icon_dirs() -> Seq<Seq<char>> {
    seq![
        seq!['/', 'u', 's', 'r', '/', 's', 'h', 'a', 'r', 'e', '/', 'i', 'c', 'o', 'n', 's'],
        seq!['/', 'u', 's', 'r', '/', 'l', 'o', 'c', 'a', 'l', '/', 's', 'h', 'a', 'r', 'e', '/', 'i', 'c', 'o', 'n', 's'],
        seq!['~', '/', '.', 'i', 'c', 'o', 'n', 's'],
        seq!['~', '/', '.', 'l', 'o', 'c', 'a', 'l', '/', 's', 'h', 'a', 'r', 'e', '/', 'i', 'c', 'o', 'n', 's'],
        seq!['/', 'u', 's', 'r', '/', 's', 'h', 'a', 'r', 'e', '/', 'p', 'i', 'x', 'm', 'a', 'p', 's'],
        seq![
            '/', 'v', 'a', 'r', '/', 'l', 'i', 'b', '/', 'f', 'l', 'a', 't', 'p', 'a', 'k', '/', 'e', 'x', 'p', 'o', 'r', 't', 's', '/', 's', 'h', 'a', 'r', 'e', '/', 'i', 'c', 'o', 'n', 's'
        ],
    ]
}

/// The directories searched for icon themes, in order: the fixed ones, with `~/` standing
/// for `home`, then `icons` under each directory of the data directory list `data_dirs`
/// (separated by `:`), when it is known.
pub open spec fn icon_dir_list(home: Option<Seq<char>>, data_dirs: Option<Seq<char>>) -> Seq<
    Seq<char>,
> {
    let fixed = fixed_icon_dirs().map_values(|d: Seq<char>| expanded(d, home));
    match data_dirs {
        Some(x) => fixed + colon_parts(x).map_values(
            |p: Seq<char>| trim_trailing_slashes(p) + icons_suffix(),
        ),
        None => fixed,
    }
}

/// The icon sizes searched, in order.
pub open spec fn icon_sizes() -> Seq<Seq<char>> {
    seq![
        seq!['s', 'c', 'a', 'l', 'a', 'b', 'l', 'e'],
        seq!['s', 'y', 'm', 'b', 'o', 'l', 'i', 'c'],
        seq!['1', '6', 'x', '1', '6'],
        seq!['2', '2', 'x', '2', '2'],
        seq!['2', '4', 'x', '2', '4'],
        seq!['3', '2', 'x', '3', '2'],
        seq!['4', '8', 'x', '4', '8'],
        seq!['6', '4', 'x', '6', '4'],
        seq!['1', '2', '8', 'x', '1', '2', '8'],
    ]
}

/// The icon categories searched, in order.
pub open spec fn icon_subdirs() -> Seq<Seq<char>> {
    seq![
        seq!['a', 'p', 'p', 's'],
        seq!['s', 't', 'a', 't', 'u', 's'],
        seq!['a', 'c', 't', 'i', 'o', 'n', 's'],
        seq!['d', 'e', 'v', 'i', 'c', 'e', 's'],
        seq!['c', 'a', 't', 'e', 'g', 'o', 'r', 'i', 'e', 's'],
        seq!['p', 'l', 'a', 'c', 'e', 's'],
        seq!['m', 'i', 'm', 'e', 't', 'y', 'p', 'e', 's'],
    ]
}

/// The icon file types tried, in order.
pub open spec fn icon_extensions() -> Seq<Seq<char>> {
    seq![seq!['s', 'v', 'g'], seq!['s', 'v', 'g', 'z'], seq!['p', 'n', 'g'], seq!['x', 'p', 'm']]
}

/// The directories of theme `theme` under `base`, each size with each category in turn.
pub open spec fn theme_dir_list(base: Seq<char>, theme: Seq<char>) -> Seq<Seq<char>> {
    Seq::new(
        63,
        |k: int|
            path_join(
                path_join(path_join(base, theme), icon_sizes()[k / 7]),
                icon_subdirs()[k % 7],
            ),
    )
}

/// The files tried for icon `icon_name` in directory `dir`, one for each file type.
pub open spec fn icon_file_list(dir: Seq<char>, icon_name: Seq<char>) -> Seq<Seq<char>> {
    icon_extensions().map_values(|e: Seq<char>| path_join(dir, icon_name + seq!['.'] + e))
}

/// The icon theme searched when none is configured.
pub open spec fn default_theme() -> Seq<char> {
    seq!['A', 'd', 'w', 'a', 'i', 't', 'a']
}

/// The configured icon theme, or the default one.
pub fn theme_or_default(theme: &Option<String>) -> (r: String)
    ensures
        r@ == (match theme {
            Some(t) => t@,
            None => default_theme(),
        }),
{
    match theme {
        Some(t) => t.clone(),
        None => string_from_chars(&vec!['A', 'd', 'w', 'a', 'i', 't', 'a']),
    }
}

fn append(out: &mut Vec<char>, b: &Vec<char>)
    ensures
        final(out)@ == old(out)@ + b@,
{
    let ghost start = out@;
    let mut k: usize = 0;
    while k < b.len()
        invariant
            0 <= k <= b@.len(),
            out@ == start + b@.take(k as int),
        decreases b@.len() - k,
    {
        out.push(b[k]);
        assert(b@.take(k + 1) =~= b@.take(k as int).push(b@[k as int]));
        k += 1;
    }
    assert(b@.take(k as int) =~= b@);
}

/// [`path_join`] on character vectors.
fn join_chars(a: &Vec<char>, b: &Vec<char>) -> (r: Vec<char>)
    ensures
        r@ == path_join(a@, b@),
{
    if b.len() > 0 && b[0] == '/' {
        let mut r: Vec<char> = Vec::new();
        append(&mut r, b);
        assert(r@ =~= b@);
        r
    } else if a.len() == 0 {
        let mut r: Vec<char> = Vec::new();
        append(&mut r, b);
        assert(r@ =~= b@);
        r
    } else {
        let mut r: Vec<char> = Vec::new();
        append(&mut r, a);
        if a[a.len() - 1] != '/' {
            r.push('/');
        }
        append(&mut r, b);
        assert(r@ =~= path_join(a@, b@));
        r
    }
}

/// [`trim_tilde`] on a character vector.
fn trim_tilde_chars(s: &Vec<char>) -> (r: Vec<char>)
    ensures
        r@ == trim_tilde(s@),
{
    let mut start: usize = 0;
    assert(s@.skip(0) =~= s@);
    while s.len() - start >= 2 && s[start] == '~' && s[start + 1] == '/'
        invariant
            0 <= start <= s@.len(),
            trim_tilde(s@.skip(start as int)) == trim_tilde(s@),
        decreases s@.len() - start,
    {
        proof {
            let t = s@.skip(start as int);
            assert(starts_with(t, tilde_slash())) by {
                assert(t.take(2) =~= tilde_slash());
            }
            assert(t.skip(2) =~= s@.skip(start + 2));
        }
        start += 2;
    }
    let mut r: Vec<char> = Vec::new();
    let mut k: usize = start;
    while k < s.len()
        invariant
            start <= k <= s@.len(),
            r@ == s@.subrange(start as int, k as int),
        decreases s@.len() - k,
    {
        r.push(s[k]);
        assert(s@.subrange(start as int, k + 1) =~= s@.subrange(start as int, k as int).push(
            s@[k as int],
        ));
        k += 1;
    }
    proof {
        let t = s@.skip(start as int);
        assert(r@ =~= t);
        if starts_with(t, tilde_slash()) {
            assert(t.take(2)[0] == '~' && t.take(2)[1] == '/');
            assert(false);
        }
    }
    r
}

/// [`expanded`] on character vectors.
fn expand_chars(p: &Vec<char>, home: &Option<Vec<char>>) -> (r: Vec<char>)
    ensures
        r@ == expanded(p@, match home {
            Some(h) => Some(h@),
            None => None,
        }),
{
    match home {
        Some(h) => {
            if p.len() >= 2 && p[0] == '~' && p[1] == '/' {
                assert(starts_with(p@, tilde_slash())) by {
                    assert(p@.take(2) =~= tilde_slash());
                }
                let rest = trim_tilde_chars(p);
                join_chars(h, &rest)
            } else {
                assert(!starts_with(p@, tilde_slash())) by {
                    if starts_with(p@, tilde_slash()) {
                        assert(p@.take(2)[0] == '~' && p@.take(2)[1] == '/');
                    }
                }
                let mut r: Vec<char> = Vec::new();
                append(&mut r, p);
                assert(r@ =~= p@);
                r
            }
        },
        None => {
            let mut r: Vec<char> = Vec::new();
            append(&mut r, p);
            assert(r@ =~= p@);
            r
        },
    }
}

/// Path `path` with a leading `~/` standing for the home directory `home`; see
/// [`expanded`].
pub fn expand_tilde(path: &str, home: Option<&str>) -> (r: String)
    ensures
        r@ == expanded(path@, match home {
            Some(h) => Some(h@),
            None => None,
        }),
{
    let h = match home {
        Some(h) => Some(chars_of(h)),
        None => None,
    };
    let r = expand_chars(&chars_of(path), &h);
    string_from_chars(r.as_slice())
}

fn fixed_icon_dirs_exec() -> (v: Vec<Vec<char>>)
    ensures
        v@.len() == fixed_icon_dirs().len(),
        forall|k: int| 0 <= k < v@.len() ==> (#[trigger] v@[k])@ == fixed_icon_dirs()[k],
{
    let v = vec![
        vec!['/', 'u', 's', 'r', '/', 's', 'h', 'a', 'r', 'e', '/', 'i', 'c', 'o', 'n', 's'],
        vec!['/', 'u', 's', 'r', '/', 'l', 'o', 'c', 'a', 'l', '/', 's', 'h', 'a', 'r', 'e', '/', 'i', 'c', 'o', 'n', 's'],
        vec!['~', '/', '.', 'i', 'c', 'o', 'n', 's'],
        vec!['~', '/', '.', 'l', 'o', 'c', 'a', 'l', '/', 's', 'h', 'a', 'r', 'e', '/', 'i', 'c', 'o', 'n', 's'],
        vec!['/', 'u', 's', 'r', '/', 's', 'h', 'a', 'r', 'e', '/', 'p', 'i', 'x', 'm', 'a', 'p', 's'],
        vec![
            '/', 'v', 'a', 'r', '/', 'l', 'i', 'b', '/', 'f', 'l', 'a', 't', 'p', 'a', 'k', '/', 'e', 'x', 'p', 'o', 'r', 't', 's', '/', 's', 'h', 'a', 'r', 'e', '/', 'i', 'c', 'o', 'n', 's'
        ],
    ];
    assert(v@[0]@ =~= fixed_icon_dirs()[0]);
    assert(v@[1]@ =~= fixed_icon_dirs()[1]);
    assert(v@[2]@ =~= fixed_icon_dirs()[2]);
    assert(v@[3]@ =~= fixed_icon_dirs()[3]);
    assert(v@[4]@ =~= fixed_icon_dirs()[4]);
    assert(v@[5]@ =~= fixed_icon_dirs()[5]);
    v
}

fn icon_sizes_exec() -> (v: Vec<Vec<char>>)
    ensures
        v@.len() == icon_sizes().len(),
        forall|k: int| 0 <= k < v@.len() ==> (#[trigger] v@[k])@ == icon_sizes()[k],
{
    let v = vec![
        vec!['s', 'c', 'a', 'l', 'a', 'b', 'l', 'e'],
        vec!['s', 'y', 'm', 'b', 'o', 'l', 'i', 'c'],
        vec!['1', '6', 'x', '1', '6'],
        vec!['2', '2', 'x', '2', '2'],
        vec!['2', '4', 'x', '2', '4'],
        vec!['3', '2', 'x', '3', '2'],
        vec!['4', '8', 'x', '4', '8'],
        vec!['6', '4', 'x', '6', '4'],
        vec!['1', '2', '8', 'x', '1', '2', '8'],
    ];
    assert(v@[0]@ =~= icon_sizes()[0]);
    assert(v@[1]@ =~= icon_sizes()[1]);
    assert(v@[2]@ =~= icon_sizes()[2]);
    assert(v@[3]@ =~= icon_sizes()[3]);
    assert(v@[4]@ =~= icon_sizes()[4]);
    assert(v@[5]@ =~= icon_sizes()[5]);
    assert(v@[6]@ =~= icon_sizes()[6]);
    assert(v@[7]@ =~= icon_sizes()[7]);
    assert(v@[8]@ =~= icon_sizes()[8]);
    v
}

fn icon_subdirs_exec() -> (v: Vec<Vec<char>>)
    ensures
        v@.len() == icon_subdirs().len(),
        forall|k: int| 0 <= k < v@.len() ==> (#[trigger] v@[k])@ == icon_subdirs()[k],
{
    let v = vec![
        vec!['a', 'p', 'p', 's'],
        vec!['s', 't', 'a', 't', 'u', 's'],
        vec!['a', 'c', 't', 'i', 'o', 'n', 's'],
        vec!['d', 'e', 'v', 'i', 'c', 'e', 's'],
        vec!['c', 'a', 't', 'e', 'g', 'o', 'r', 'i', 'e', 's'],
        vec!['p', 'l', 'a', 'c', 'e', 's'],
        vec!['m', 'i', 'm', 'e', 't', 'y', 'p', 'e', 's'],
    ];
    assert(v@[0]@ =~= icon_subdirs()[0]);
    assert(v@[1]@ =~= icon_subdirs()[1]);
    assert(v@[2]@ =~= icon_subdirs()[2]);
    assert(v@[3]@ =~= icon_subdirs()[3]);
    assert(v@[4]@ =~= icon_subdirs()[4]);
    assert(v@[5]@ =~= icon_subdirs()[5]);
    assert(v@[6]@ =~= icon_subdirs()[6]);
    v
}

fn icon_extensions_exec() -> (v: Vec<Vec<char>>)
    ensures
        v@.len() == icon_extensions().len(),
        forall|k: int| 0 <= k < v@.len() ==> (#[trigger] v@[k])@ == icon_extensions()[k],
{
    let v = vec![vec!['s', 'v', 'g'], vec!['s', 'v', 'g', 'z'], vec!['p', 'n', 'g'], vec!['x', 'p', 'm']];
    assert(v@[0]@ =~= icon_extensions()[0]);
    assert(v@[1]@ =~= icon_extensions()[1]);
    assert(v@[2]@ =~= icon_extensions()[2]);
    assert(v@[3]@ =~= icon_extensions()[3]);
    v
}

/// The colon-separated parts always number at least one.
proof fn lemma_colon_parts_nonempty(s: Seq<char>)
    ensures
        colon_parts(s).len() >= 1,
    decreases s.len(),
{
    if s.len() > 0 {
        lemma_colon_parts_nonempty(s.drop_last());
    }
}

/// The icon directory that data directory `p` gives: `p` without trailing `/`s, then
/// `/icons`.
fn data_icon_dir(p: &Vec<char>) -> (r: String)
    ensures
        r@ == trim_trailing_slashes(p@) + icons_suffix(),
{
    let mut t: Vec<char> = Vec::new();
    append(&mut t, p);
    assert(t@ =~= p@);
    while t.len() > 0 && t[t.len() - 1] == '/'
        invariant
            trim_trailing_slashes(t@) == trim_trailing_slashes(p@),
        decreases t@.len(),
    {
        t.pop();
    }
    append(&mut t, &vec!['/', 'i', 'c', 'o', 'n', 's']);
    assert(t@ =~= trim_trailing_slashes(p@) + icons_suffix());
    string_from_chars(t.as_slice())
}

/// The directories searched for icon themes, in order, given the home directory and the
/// data directory list when they are known; see [`icon_dir_list`].
pub fn icon_dirs(home: Option<&str>, data_dirs: Option<&str>) -> (r: Vec<String>)
    ensures
        r@.map_values(|s: String| s@) == icon_dir_list(
            match home {
                Some(h) => Some(h@),
                None => None,
            },
            match data_dirs {
                Some(x) => Some(x@),
                None => None,
            },
        ),
{
    let ghost hv = match home {
        Some(h) => Some(h@),
        None => None,
    };
    let h = match home {
        Some(h) => Some(chars_of(h)),
        None => None,
    };
    let fixed = fixed_icon_dirs_exec();
    let mut r: Vec<String> = Vec::new();
    let mut k: usize = 0;
    while k < fixed.len()
        invariant
            fixed@.len() == fixed_icon_dirs().len(),
            forall|j: int| 0 <= j < fixed@.len() ==> (#[trigger] fixed@[j])@ == fixed_icon_dirs()[j],
            hv == match h {
                Some(c) => Some(c@),
                None => None::<Seq<char>>,
            },
            0 <= k <= fixed@.len(),
            r@.len() == k,
            forall|j: int| 0 <= j < k ==> (#[trigger] r@[j])@ == expanded(fixed_icon_dirs()[j], hv),
        decreases fixed@.len() - k,
    {
        let e = expand_chars(&fixed[k], &h);
        r.push(string_from_chars(e.as_slice()));
        k += 1;
    }
    let ghost fixed_part = fixed_icon_dirs().map_values(|d: Seq<char>| expanded(d, hv));
    assert(r@.map_values(|s: String| s@) =~= fixed_part);
    match data_dirs {
        None => r,
        Some(x) => {
            let xs = chars_of(x);
            let ghost f = |p: Seq<char>| trim_trailing_slashes(p) + icons_suffix();
            let mut cur: Vec<char> = Vec::new();
            let mut i: usize = 0;
            proof {
                assert(xs@.take(0) =~= Seq::<char>::empty());
                assert(colon_parts(xs@.take(0)) =~= seq![Seq::<char>::empty()]);
                assert(colon_parts(xs@.take(0)).drop_last().map_values(f) =~= Seq::<Seq<char>>::empty());
                assert(r@.map_values(|s: String| s@) =~= fixed_part + colon_parts(xs@.take(0)).drop_last().map_values(f));
            }
            while i < xs.len()
                invariant
                    0 <= i <= xs@.len(),
                    colon_parts(xs@.take(i as int)).len() >= 1,
                    cur@ == colon_parts(xs@.take(i as int)).last(),
                    r@.map_values(|s: String| s@) == fixed_part + colon_parts(
                        xs@.take(i as int),
                    ).drop_last().map_values(f),
                    f == (|p: Seq<char>| trim_trailing_slashes(p) + icons_suffix()),
                decreases xs@.len() - i,
            {
                let ghost prev = colon_parts(xs@.take(i as int));
                proof {
                    assert(xs@.take(i + 1).drop_last() =~= xs@.take(i as int));
                    assert(xs@.take(i + 1).last() == xs@[i as int]);
                }
                if xs[i] == ':' {
                    let ghost old_r = r@;
                    let part = data_icon_dir(&cur);
                    r.push(part);
                    cur = Vec::new();
                    proof {
                        assert(r@.map_values(|s: String| s@) =~= old_r.map_values(|s: String| s@).push(
                            f(prev.last()),
                        ));
                        assert(prev.map_values(f) =~= prev.drop_last().map_values(f).push(
                            f(prev.last()),
                        ));
                        let now = colon_parts(xs@.take(i + 1));
                        assert(now == prev.push(Seq::empty()));
                        assert(now.drop_last() =~= prev);
                        assert(prev =~= prev.drop_last().push(prev.last()));
                        assert(r@.map_values(|s: String| s@) =~= fixed_part + now.drop_last().map_values(f));
                        assert(cur@ =~= now.last());
                    }
                } else {
                    cur.push(xs[i]);
                    proof {
                        let now = colon_parts(xs@.take(i + 1));
                        assert(now.drop_last() =~= prev.drop_last());
                    }
                }
                i += 1;
            }
            let ghost old_r = r@;
            let part = data_icon_dir(&cur);
            r.push(part);
            proof {
                let all = colon_parts(xs@.take(i as int));
                assert(r@.map_values(|s: String| s@) =~= old_r.map_values(|s: String| s@).push(
                    f(all.last()),
                ));
                assert(all.map_values(f) =~= all.drop_last().map_values(f).push(f(all.last())));
                assert(xs@.take(i as int) =~= xs@);
                assert(all =~= all.drop_last().push(all.last()));
                assert(r@.map_values(|s: String| s@) =~= fixed_part + all.map_values(f));
            }
            r
        },
    }
}

/// The directories of theme `theme` under `base`, in the order searched; see
/// [`theme_dir_list`].
pub fn theme_dirs(base: &str, theme: &str) -> (r: Vec<String>)
    ensures
        r@.map_values(|s: String| s@) == theme_dir_list(base@, theme@),
{
    let sizes = icon_sizes_exec();
    let subdirs = icon_subdirs_exec();
    let bt = join_chars(&chars_of(base), &chars_of(theme));
    let mut r: Vec<String> = Vec::new();
    let mut si: usize = 0;
    while si < 9
        invariant
            sizes@.len() == 9,
            subdirs@.len() == 7,
            forall|k: int| 0 <= k < 9 ==> (#[trigger] sizes@[k])@ == icon_sizes()[k],
            forall|k: int| 0 <= k < 7 ==> (#[trigger] subdirs@[k])@ == icon_subdirs()[k],
            bt@ == path_join(base@, theme@),
            0 <= si <= 9,
            r@.len() == si * 7,
            forall|k: int| 0 <= k < r@.len() ==> (#[trigger] r@[k])@ == theme_dir_list(base@, theme@)[k],
        decreases 9 - si,
    {
        let bs = join_chars(&bt, &sizes[si]);
        let mut di: usize = 0;
        while di < 7
            invariant
                sizes@.len() == 9,
                subdirs@.len() == 7,
                forall|k: int| 0 <= k < 7 ==> (#[trigger] subdirs@[k])@ == icon_subdirs()[k],
                bs@ == path_join(path_join(base@, theme@), icon_sizes()[si as int]),
                0 <= si < 9,
                0 <= di <= 7,
                r@.len() == si * 7 + di,
                forall|k: int| 0 <= k < r@.len() ==> (#[trigger] r@[k])@ == theme_dir_list(base@, theme@)[k],
            decreases 7 - di,
        {
            let d = join_chars(&bs, &subdirs[di]);
            r.push(string_from_chars(d.as_slice()));
            proof {
                let k = si * 7 + di;
                assert(k / 7 == si && k % 7 == di) by (nonlinear_arith)
                    requires
                        k == si * 7 + di,
                        0 <= di < 7,
                        0 <= si,
                ;
                assert(r@[k as int]@ == theme_dir_list(base@, theme@)[k as int]);
            }
            di += 1;
        }
        si += 1;
    }
    assert(r@.map_values(|s: String| s@) =~= theme_dir_list(base@, theme@));
    r
}

/// The files tried for icon `icon_name` in directory `dir`, in order; see
/// [`icon_file_list`].
pub fn icon_files(dir: &str, icon_name: &str) -> (r: Vec<String>)
    ensures
        r@.map_values(|s: String| s@) == icon_file_list(dir@, icon_name@),
{
    let exts = icon_extensions_exec();
    let d = chars_of(dir);
    let n = chars_of(icon_name);
    let mut r: Vec<String> = Vec::new();
    let mut k: usize = 0;
    while k < exts.len()
        invariant
            exts@.len() == icon_extensions().len(),
            forall|j: int| 0 <= j < exts@.len() ==> (#[trigger] exts@[j])@ == icon_extensions()[j],
            d@ == dir@,
            n@ == icon_name@,
            0 <= k <= exts@.len(),
            r@.len() == k,
            forall|j: int| 0 <= j < k ==> (#[trigger] r@[j])@ == icon_file_list(dir@, icon_name@)[j],
        decreases exts@.len() - k,
    {
        let mut file: Vec<char> = Vec::new();
        append(&mut file, &n);
        file.push('.');
        append(&mut file, &exts[k]);
        let full = join_chars(&d, &file);
        r.push(string_from_chars(full.as_slice()));
        k += 1;
    }
    assert(r@.map_values(|s: String| s@) =~= icon_file_list(dir@, icon_name@));
    r
}

} // verus!
