use vstd::prelude::*;
use crate::ascii::{chars_of, eq_ignore_ascii_case, eq_ignore_case, lower_seq, spec_lower, to_lower,
    string_from_chars};
use crate::order::{name_order, natural_sign, str_lowercase, to_lowercase, lemma_name_order_antisymmetric,
    lemma_name_order_transitive, lemma_key_order_range};

verus! {

/// Index of the last `.` in `s`, or -1 when there is none.
pub open spec fn last_dot(s: Seq<char>) -> int
    decreases s.len(),
{
    if s.len() == 0 {
        -1
    } else if s.last() == '.' {
        s.len() - 1
    } else {
        last_dot(s.drop_last())
    }
}

/// The extension of a file name, as `std::path` defines it: what follows the
/// last `.`, except that a name without a `.`, a name whose only `.` is its
/// first character, and `..` have none.
pub open spec fn extension(name: Seq<char>) -> Option<Seq<char>> {
    if name == seq!['.', '.'] || last_dot(name) <= 0 {
        None
    } else {
        Some(name.skip(last_dot(name) + 1))
    }
}

proof fn lemma_last_dot_after(s: Seq<char>, m: int)
    requires
        0 <= m <= s.len(),
        forall|j: int| m <= j < s.len() ==> s[j] != '.',
    ensures
        last_dot(s) == last_dot(s.take(m)),
    decreases s.len(),
{
    if s.len() > m {
        assert(s.last() != '.');
        lemma_last_dot_after(s.drop_last(), m);
        assert(s.drop_last().take(m) =~= s.take(m));
    } else {
        assert(s.take(m) =~= s);
    }
}

/// Where the extension of `name` starts (just past its dot), or `None` when
/// it has none.
pub fn extension_start(name: &[char]) -> (r: Option<usize>)
    ensures
        match r {
            Some(p) => 0 < p <= name@.len() && extension(name@) == Some(name@.skip(p as int)),
            None => extension(name@) is None,
        },
{
    let n = name.len();
    if n == 2 && name[0] == '.' && name[1] == '.' {
        assert(name@ =~= seq!['.', '.']);
        return None;
    }
    let mut i = n;
    while i > 0 && name[i - 1] != '.'
        invariant
            i <= n,
            n == name@.len(),
            forall|j: int| i <= j < n ==> name@[j] != '.',
        decreases i,
    {
        i = i - 1;
    }
    proof {
        lemma_last_dot_after(name@, i as int);
        if i > 0 {
            assert(name@.take(i as int).last() == '.');
        } else {
            assert(name@.take(0) =~= Seq::<char>::empty());
        }
        if name@ == seq!['.', '.'] {
            assert(name@.len() == 2);
        }
    }
    if i <= 1 {
        None
    } else {
        Some(i)
    }
}

/// The extensions of the sound files the player opens.
pub open spec fn sound_extensions() -> Seq<Seq<char>> {
    seq![seq!['w', 'a', 'v'], seq!['m', 'p', '3'], seq!['f', 'l', 'a', 'c'], seq!['o', 'g', 'g']]
}

/// `name` is a sound file the player opens: its extension, compared without
/// ASCII case, is one of `sound_extensions`.
pub open spec fn spec_is_sound(name: Seq<char>) -> bool {
    match extension(name) {
        Some(e) => sound_extensions().contains(lower_seq(e)),
        None => false,
    }
}

/// The lower-cased tail of `v` from `from` equals `pat`.
fn lower_tail_is(v: &[char], from: usize, pat: &[char]) -> (r: bool)
    requires
        from <= v@.len(),
    ensures
        r == (lower_seq(v@.skip(from as int)) == pat@),
{
    let n = v.len();
    if n - from != pat.len() {
        assert(lower_seq(v@.skip(from as int)).len() != pat@.len());
        return false;
    }
    let mut k: usize = 0;
    while k < pat.len()
        invariant
            n == v@.len(),
            from <= n,
            n - from == pat@.len(),
            k <= pat@.len(),
            forall|j: int| 0 <= j < k ==> spec_lower(v@[from + j]) == pat@[j],
        decreases pat@.len() - k,
    {
        if to_lower(v[from + k]) != pat[k] {
            assert(lower_seq(v@.skip(from as int))[k as int] == spec_lower(v@[from + k]));
            return false;
        }
        k = k + 1;
    }
    assert(lower_seq(v@.skip(from as int)) =~= pat@);
    true
}

/// Is the file named `name` a sound the player opens? Extension only, and
/// case-insensitive (ASCII): wav, mp3, flac or ogg.
pub fn is_sound(name: &str) -> (r: bool)
    ensures
        r == spec_is_sound(name@),
{
    let v = chars_of(name);
    match extension_start(v.as_slice()) {
        None => false,
        Some(p) => {
            let ghost e = lower_seq(v@.skip(p as int));
            let r = lower_tail_is(v.as_slice(), p, &['w', 'a', 'v']) || lower_tail_is(
                v.as_slice(),
                p,
                &['m', 'p', '3'],
            ) || lower_tail_is(v.as_slice(), p, &['f', 'l', 'a', 'c']) || lower_tail_is(
                v.as_slice(),
                p,
                &['o', 'g', 'g'],
            );
            proof {
                assert(sound_extensions()[0] == seq!['w', 'a', 'v']);
                assert(sound_extensions()[1] == seq!['m', 'p', '3']);
                assert(sound_extensions()[2] == seq!['f', 'l', 'a', 'c']);
                assert(sound_extensions()[3] == seq!['o', 'g', 'g']);
                if sound_extensions().contains(e) {
                    let k = choose|k: int| 0 <= k < 4 && sound_extensions()[k] == e;
                    assert(k == 0 || k == 1 || k == 2 || k == 3);
                }
                if r {
                    assert(e == sound_extensions()[0] || e == sound_extensions()[1] || e
                        == sound_extensions()[2] || e == sound_extensions()[3]);
                }
            }
            r
        },
    }
}

/// Where `x` goes when it is inserted into `order`: just before the first
/// entry whose key comes after `x`'s key (after every entry that ties with
/// it).
pub open spec fn insert_pos(keys: Seq<Seq<char>>, order: Seq<usize>, x: usize) -> int
    decreases order.len(),
{
    if order.len() == 0 {
        0
    } else if name_order(keys[order[0] as int], keys[x as int]) > 0 {
        0
    } else {
        1 + insert_pos(keys, order.drop_first(), x)
    }
}

/// The first `n` indices into `keys`, sorted by the natural order of their
/// keys; equal keys keep their index order (a stable insertion sort).
pub open spec fn sort_order(keys: Seq<Seq<char>>, n: nat) -> Seq<usize>
    decreases n,
{
    if n == 0 {
        seq![]
    } else {
        let o = sort_order(keys, (n - 1) as nat);
        o.insert(insert_pos(keys, o, (n - 1) as usize), (n - 1) as usize)
    }
}

proof fn lemma_insert_pos(keys: Seq<Seq<char>>, order: Seq<usize>, x: usize, p: int)
    requires
        0 <= p <= order.len(),
        forall|q: int| 0 <= q < p ==> name_order(keys[#[trigger] order[q] as int], keys[x as int]) <= 0,
        p == order.len() || name_order(keys[order[p] as int], keys[x as int]) > 0,
    ensures
        insert_pos(keys, order, x) == p,
    decreases p,
{
    if p > 0 {
        let t = order.drop_first();
        assert(name_order(keys[order[0] as int], keys[x as int]) <= 0);
        assert forall|q: int| 0 <= q < p - 1 implies name_order(
            keys[#[trigger] t[q] as int],
            keys[x as int],
        ) <= 0 by {
            assert(t[q] == order[q + 1]);
        }
        if p < order.len() {
            assert(t[p - 1] == order[p]);
        }
        lemma_insert_pos(keys, t, x, p - 1);
    }
}

proof fn lemma_insert_pos_bounds(keys: Seq<Seq<char>>, order: Seq<usize>, x: usize)
    ensures
        0 <= insert_pos(keys, order, x) <= order.len(),
        forall|q: int|
            0 <= q < insert_pos(keys, order, x) ==> name_order(
                keys[#[trigger] order[q] as int],
                keys[x as int],
            ) <= 0,
        insert_pos(keys, order, x) < order.len() ==> name_order(
            keys[order[insert_pos(keys, order, x)] as int],
            keys[x as int],
        ) > 0,
    decreases order.len(),
{
    if order.len() > 0 && name_order(keys[order[0] as int], keys[x as int]) <= 0 {
        let t = order.drop_first();
        lemma_insert_pos_bounds(keys, t, x);
        assert forall|q: int| 0 <= q < insert_pos(keys, order, x) implies name_order(
            keys[#[trigger] order[q] as int],
            keys[x as int],
        ) <= 0 by {
            if q > 0 {
                assert(order[q] == t[q - 1]);
            }
        }
    }
}

/// The sort puts every index below `n` exactly once, in the natural order of
/// the keys, and keeps tied keys in index order.
pub proof fn lemma_sort_order(keys: Seq<Seq<char>>, n: nat)
    requires
        n <= keys.len(),
        n <= usize::MAX,
    ensures
        sort_order(keys, n).len() == n,
        forall|p: int| 0 <= p < n ==> #[trigger] sort_order(keys, n)[p] < n,
        forall|p: int, q: int|
            0 <= p < q < n ==> sort_order(keys, n)[p] != sort_order(keys, n)[q],
        forall|p: int, q: int|
            0 <= p < q < n ==> name_order(
                keys[sort_order(keys, n)[p] as int],
                keys[sort_order(keys, n)[q] as int],
            ) <= 0,
        forall|p: int, q: int|
            0 <= p < q < n && name_order(
                keys[sort_order(keys, n)[p] as int],
                keys[sort_order(keys, n)[q] as int],
            ) == 0 ==> sort_order(keys, n)[p] < sort_order(keys, n)[q],
    decreases n,
{
    if n > 0 {
        let m = (n - 1) as nat;
        lemma_sort_order(keys, m);
        let o = sort_order(keys, m);
        let x = m as usize;
        let ip = insert_pos(keys, o, x);
        lemma_insert_pos_bounds(keys, o, x);
        let r = o.insert(ip, x);
        assert(r == sort_order(keys, n));
        assert forall|p: int| 0 <= p < n implies #[trigger] r[p] < n by {
            if p < ip {
                assert(r[p] == o[p]);
            } else if p > ip {
                assert(r[p] == o[p - 1]);
            }
        }
        assert forall|p: int, q: int| 0 <= p < q < n implies r[p] != r[q] by {
            if q < ip {
                assert(r[p] == o[p] && r[q] == o[q]);
            } else if q == ip {
                assert(r[p] == o[p]);
            } else if p < ip {
                assert(r[p] == o[p] && r[q] == o[q - 1]);
            } else if p == ip {
                assert(r[q] == o[q - 1]);
            } else {
                assert(r[p] == o[p - 1] && r[q] == o[q - 1]);
            }
        }
        assert forall|p: int, q: int| 0 <= p < q < n implies name_order(
            keys[r[p] as int],
            keys[r[q] as int],
        ) <= 0 && (name_order(keys[r[p] as int], keys[r[q] as int]) == 0 ==> r[p] < r[q]) by {
            if q < ip {
                assert(r[p] == o[p] && r[q] == o[q]);
            } else if q == ip {
                assert(r[p] == o[p]);
                assert(name_order(keys[o[p] as int], keys[x as int]) <= 0);
            } else if p < ip {
                assert(r[p] == o[p] && r[q] == o[q - 1]);
            } else if p == ip {
                assert(r[q] == o[q - 1]);
                let y = o[ip];
                let z = o[q - 1];
                assert(name_order(keys[y as int], keys[x as int]) > 0);
                lemma_name_order_antisymmetric(keys[y as int], keys[x as int]);
                if ip < q - 1 {
                    assert(name_order(keys[y as int], keys[z as int]) <= 0);
                    lemma_name_order_transitive(keys[x as int], keys[y as int], keys[z as int]);
                }
            } else {
                assert(r[p] == o[p - 1] && r[q] == o[q - 1]);
            }
        }
    }
}

/// Sort the indices of `keys` by the natural order of the keys (stable).
fn sort_indices(keys: &Vec<Vec<char>>) -> (order: Vec<usize>)
    ensures
        order@ == sort_order(keys@.map_values(|k: Vec<char>| k@), keys@.len()),
{
    let ghost ks = keys@.map_values(|k: Vec<char>| k@);
    let n = keys.len();
    let mut order: Vec<usize> = Vec::new();
    let mut x: usize = 0;
    while x < n
        invariant
            n == keys@.len(),
            ks == keys@.map_values(|k: Vec<char>| k@),
            x <= n,
            order@ == sort_order(ks, x as nat),
        decreases n - x,
    {
        proof {
            lemma_sort_order(ks, x as nat);
        }
        let mut p: usize = 0;
        while p < order.len() && natural_sign(keys[order[p]].as_slice(), keys[x].as_slice()) <= 0
            invariant
                n == keys@.len(),
                ks == keys@.map_values(|k: Vec<char>| k@),
                x < n,
                order@ == sort_order(ks, x as nat),
                order@.len() == x,
                forall|q: int| 0 <= q < x ==> #[trigger] order@[q] < x,
                p <= order@.len(),
                forall|q: int|
                    0 <= q < p ==> name_order(ks[#[trigger] order@[q] as int], ks[x as int]) <= 0,
            decreases order@.len() - p,
        {
            p = p + 1;
        }
        proof {
            if p < order@.len() {
                lemma_key_order_range(
                    crate::order::name_key(ks[order@[p as int] as int]),
                    crate::order::name_key(ks[x as int]),
                );
            }
            lemma_insert_pos(ks, order@, x, p as int);
        }
        order.insert(p, x);
        x = x + 1;
    }
    order
}

/// The character sequences of `names`.
pub open spec fn name_views(names: Seq<String>) -> Seq<Seq<char>> {
    names.map_values(|s: String| s@)
}

/// The sound files among `names`, in their listed order.
pub open spec fn sound_names(names: Seq<Seq<char>>) -> Seq<Seq<char>>
    decreases names.len(),
{
    if names.len() == 0 {
        seq![]
    } else {
        let rest = sound_names(names.drop_last());
        if spec_is_sound(names.last()) {
            rest.push(names.last())
        } else {
            rest
        }
    }
}

/// `files` in the natural order of their `keys` (one key per file); tied
/// keys keep the files' listed order.
pub open spec fn sorted_by_keys(files: Seq<Seq<char>>, keys: Seq<Seq<char>>) -> Seq<Seq<char>> {
    sort_order(keys, files.len()).map_values(|i: usize| files[i as int])
}

/// `names` in the order the file list shows them: by `explorer_order`, ties
/// in their listed order.
pub open spec fn explorer_sorted(names: Seq<Seq<char>>) -> Seq<Seq<char>> {
    sorted_by_keys(names, names.map_values(|n: Seq<char>| str_lowercase(n)))
}

/// Index of the first of `files` equal to `current` up to ASCII case, or
/// `files.len()` when there is none.
pub open spec fn find_name(files: Seq<Seq<char>>, current: Seq<char>) -> int
    decreases files.len(),
{
    if files.len() == 0 {
        0
    } else if eq_ignore_case(files[0], current) {
        0
    } else {
        1 + find_name(files.drop_first(), current)
    }
}

/// The entry `delta` places from `current` among `files` sorted by `keys`;
/// none when `current` (matched ignoring ASCII case) is not among them or the
/// step leaves the list (no wrapping).
pub open spec fn spec_step_sorted(
    files: Seq<Seq<char>>,
    keys: Seq<Seq<char>>,
    current: Seq<char>,
    delta: int,
) -> Option<Seq<char>> {
    let sorted = sorted_by_keys(files, keys);
    let p = find_name(sorted, current);
    if p < sorted.len() && 0 <= p + delta < sorted.len() {
        Some(sorted[p + delta])
    } else {
        None
    }
}

/// The sound file `delta` places from `current` among the sound files of the
/// folder listing `names`, in the order the file list shows them; none when
/// `current` is not among them or the step leaves the list (no wrapping).
pub open spec fn spec_sibling(names: Seq<Seq<char>>, current: Seq<char>, delta: int) -> Option<
    Seq<char>,
> {
    let files = sound_names(names);
    spec_step_sorted(files, files.map_values(|n: Seq<char>| str_lowercase(n)), current, delta)
}

proof fn lemma_find_name(files: Seq<Seq<char>>, current: Seq<char>, p: int)
    requires
        0 <= p <= files.len(),
        forall|q: int| 0 <= q < p ==> !eq_ignore_case(#[trigger] files[q], current),
        p == files.len() || eq_ignore_case(files[p], current),
    ensures
        find_name(files, current) == p,
    decreases p,
{
    if p > 0 {
        let t = files.drop_first();
        assert(!eq_ignore_case(files[0], current));
        assert forall|q: int| 0 <= q < p - 1 implies !eq_ignore_case(#[trigger] t[q], current) by {
            assert(t[q] == files[q + 1]);
        }
        if p < files.len() {
            assert(t[p - 1] == files[p]);
        }
        lemma_find_name(t, current, p - 1);
    }
}

/// The entry `delta` steps from `current` among `files` put in the natural
/// order of their `keys` (one per file, ties in listed order): none when
/// `current` is not among them (matched ignoring ASCII case) or the step
/// leaves the list.
pub fn step_sorted(files: &Vec<Vec<char>>, keys: &Vec<Vec<char>>, current: &[char], delta: i32) -> (r:
    Option<String>)
    requires
        files@.len() == keys@.len(),
        files@.len() <= i32::MAX,
        files@.len() + delta <= i32::MAX,
    ensures
        ({
            let spec = spec_step_sorted(
                files@.map_values(|v: Vec<char>| v@),
                keys@.map_values(|v: Vec<char>| v@),
                current@,
                delta as int,
            );
            &&& r is Some <==> spec is Some
            &&& r matches Some(s) ==> s@ == spec->0
        }),
{
    let ghost fv = files@.map_values(|v: Vec<char>| v@);
    let ghost kv = keys@.map_values(|v: Vec<char>| v@);
    let order = sort_indices(keys);
    proof {
        lemma_sort_order(kv, keys@.len());
    }
    let ghost sorted = sorted_by_keys(fv, kv);
    assert(sorted.len() == order@.len());
    assert forall|q: int| 0 <= q < order@.len() implies #[trigger] sorted[q] == files@[order@[q] as int]@ by {}
    let mut p: usize = 0;
    while p < order.len() && !eq_ignore_ascii_case(files[order[p]].as_slice(), current)
        invariant
            p <= order@.len(),
            order@.len() == files@.len(),
            forall|q: int| 0 <= q < order@.len() ==> #[trigger] order@[q] < files@.len(),
            forall|q: int| 0 <= q < order@.len() ==> #[trigger] sorted[q] == files@[order@[q] as int]@,
            sorted.len() == order@.len(),
            forall|q: int| 0 <= q < p ==> !eq_ignore_case(#[trigger] sorted[q], current@),
        decreases order@.len() - p,
    {
        p = p + 1;
    }
    proof {
        lemma_find_name(sorted, current@, p as int);
    }
    if p == order.len() {
        return None;
    }
    let idx = p as i32 + delta;
    if 0 <= idx && (idx as usize) < order.len() {
        let f = &files[order[idx as usize]];
        Some(string_from_chars(f.as_slice()))
    } else {
        None
    }
}

/// The sound file `delta` steps from `current` among the folder entries
/// `names` (the names of its regular files), in the order the file list
/// shows them. `None` when there is no neighbor in that direction (stepping
/// stops at the ends, it does not wrap) or `current` is not among them
/// (matched by name, ignoring ASCII case).
pub fn sibling_sound(names: &Vec<String>, current: &str, delta: i32) -> (r: Option<String>)
    requires
        names@.len() <= i32::MAX,
        names@.len() + delta <= i32::MAX,
    ensures
        r is Some <==> spec_sibling(name_views(names@), current@, delta as int) is Some,
        r matches Some(s) ==> s@ == spec_sibling(name_views(names@), current@, delta as int)->0,
{
    let ghost all = name_views(names@);
    let mut files: Vec<Vec<char>> = Vec::new();
    let mut keys: Vec<Vec<char>> = Vec::new();
    let mut k: usize = 0;
    while k < names.len()
        invariant
            all == name_views(names@),
            k <= names@.len(),
            files@.len() == keys@.len(),
            files@.map_values(|v: Vec<char>| v@) == sound_names(all.take(k as int)),
            forall|i: int| 0 <= i < keys@.len() ==> #[trigger] keys@[i]@ == str_lowercase(files@[i]@),
        decreases names@.len() - k,
    {
        let ghost before = files@.map_values(|v: Vec<char>| v@);
        assert(all.take(k + 1).drop_last() =~= all.take(k as int));
        assert(all.take(k + 1).last() == names@[k as int]@);
        if is_sound(names[k].as_str()) {
            files.push(chars_of(names[k].as_str()));
            let low = to_lowercase(names[k].as_str());
            keys.push(chars_of(low.as_str()));
            assert(files@.map_values(|v: Vec<char>| v@) =~= before.push(names@[k as int]@));
        }
        k = k + 1;
    }
    assert(all.take(names@.len() as int) =~= all);
    let ghost sounds = files@.map_values(|v: Vec<char>| v@);
    assert(keys@.map_values(|v: Vec<char>| v@) =~= sounds.map_values(|n: Seq<char>| str_lowercase(n)));
    proof {
        lemma_sound_names_len(all);
    }
    let cur = chars_of(current);
    step_sorted(&files, &keys, cur.as_slice(), delta)
}

proof fn lemma_sound_names_len(names: Seq<Seq<char>>)
    ensures
        sound_names(names).len() <= names.len(),
    decreases names.len(),
{
    if names.len() > 0 {
        lemma_sound_names_len(names.drop_last());
    }
}

/// What `find_name` finds: when it is inside the list, an entry equal to
/// `current` up to ASCII case; the entries before it are not.
proof fn lemma_find_name_found(files: Seq<Seq<char>>, current: Seq<char>)
    ensures
        0 <= find_name(files, current) <= files.len(),
        find_name(files, current) < files.len() ==> eq_ignore_case(
            files[find_name(files, current)],
            current,
        ),
        forall|j: int| 0 <= j < find_name(files, current) ==> !eq_ignore_case(#[trigger] files[j], current),
    decreases files.len(),
{
    if files.len() > 0 && !eq_ignore_case(files[0], current) {
        let t = files.drop_first();
        lemma_find_name_found(t, current);
        assert forall|j: int| 0 <= j < find_name(files, current) implies !eq_ignore_case(
            #[trigger] files[j],
            current,
        ) by {
            if j > 0 {
                assert(files[j] == t[j - 1]);
            }
        }
    }
}

/// Stepping back undoes a step: when the folder's sound files have names that
/// differ beyond ASCII case (as on a case-insensitive file system), going
/// `delta` places from `current` and then `-delta` places from where that
/// led returns to `current` (up to ASCII case).
pub proof fn lemma_sibling_round_trip(names: Seq<Seq<char>>, current: Seq<char>, delta: int)
    requires
        names.len() <= usize::MAX,
        forall|i: int, j: int|
            0 <= i < j < sound_names(names).len() ==> !eq_ignore_case(
                #[trigger] sound_names(names)[i],
                #[trigger] sound_names(names)[j],
            ),
        spec_sibling(names, current, delta) is Some,
    ensures
        spec_sibling(names, spec_sibling(names, current, delta)->0, -delta) matches Some(r)
            && eq_ignore_case(r, current),
{
    let files = sound_names(names);
    let keys = files.map_values(|n: Seq<char>| str_lowercase(n));
    lemma_sound_names_len(names);
    lemma_sort_order(keys, files.len());
    let order = sort_order(keys, files.len());
    let sorted = sorted_by_keys(files, keys);
    assert(sorted.len() == files.len());
    assert forall|a: int, b: int| 0 <= a < sorted.len() && 0 <= b < sorted.len() && a != b implies !eq_ignore_case(
        #[trigger] sorted[a],
        #[trigger] sorted[b],
    ) by {
        assert(sorted[a] == files[order[a] as int]);
        assert(sorted[b] == files[order[b] as int]);
        assert(order[a] != order[b]);
        if order[a] < order[b] {
            assert(!eq_ignore_case(files[order[a] as int], files[order[b] as int]));
        } else {
            assert(!eq_ignore_case(files[order[b] as int], files[order[a] as int]));
        }
    }
    lemma_find_name_found(sorted, current);
    let p = find_name(sorted, current);
    let qi = p + delta;
    let q = sorted[qi];
    assert(spec_sibling(names, current, delta) == Some(q));
    assert forall|j: int| 0 <= j < qi implies !eq_ignore_case(#[trigger] sorted[j], q) by {}
    lemma_find_name(sorted, q, qi);
    assert(find_name(sorted, q) == qi);
    assert(spec_sibling(names, q, -delta) == Some(sorted[p]));
}

/// The player opens WAV, MP3, FLAC and OGG files, by extension, ignoring
/// ASCII case, and nothing else.
pub proof fn lemma_sound_formats(name: Seq<char>)
    ensures
        spec_is_sound(name) <==> match extension(name) {
            Some(e) => {
                let l = lower_seq(e);
                l == seq!['w', 'a', 'v'] || l == seq!['m', 'p', '3'] || l == seq!['f', 'l', 'a', 'c'] || l
                    == seq!['o', 'g', 'g']
            },
            None => false,
        },
{
    if let Some(e) = extension(name) {
        let l = lower_seq(e);
        let x = sound_extensions();
        if x.contains(l) {
            let k = choose|k: int| 0 <= k < x.len() && x[k] == l;
            assert(k == 0 || k == 1 || k == 2 || k == 3);
        }
        if l == seq!['w', 'a', 'v'] {
            assert(x[0] == l);
        } else if l == seq!['m', 'p', '3'] {
            assert(x[1] == l);
        } else if l == seq!['f', 'l', 'a', 'c'] {
            assert(x[2] == l);
        } else if l == seq!['o', 'g', 'g'] {
            assert(x[3] == l);
        }
    }
}

} // verus!
