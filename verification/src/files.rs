//! Where the datasets are and which files hold one.
use crate::text;
use vstd::prelude::*;
use vstd::seq_lib::*;
use vstd::string::*;

verus! {

/// `base` followed by the path component `part`.
pub open spec fn joined(base: Seq<char>, part: Seq<char>) -> Seq<char> {
    if base.len() == 0 || base.last() == '/' {
        base + part
    } else {
        base.push('/') + part
    }
}

/// `name` is more than a dot and `extension`, and ends with these.
pub open spec fn has_extension(name: Seq<char>, extension: Seq<char>) -> bool {
    let dot = name.len() - extension.len() - 1;
    dot > 0 && name[dot] == '.' && name.skip(dot + 1) == extension
}

/// The file names of tabular datasets.
pub open spec fn is_dataset_name(name: Seq<char>) -> bool {
    has_extension(name, seq!['t', 'b', 'l']) || has_extension(name, seq!['c', 'v', 's'])
}

/// Lexicographic order by code points.
pub open spec fn lex_le(a: Seq<char>, b: Seq<char>) -> bool
    decreases a.len(),
{
    if a.len() == 0 {
        true
    } else if b.len() == 0 {
        false
    } else if a[0] == b[0] {
        lex_le(a.skip(1), b.skip(1))
    } else {
        a[0] < b[0]
    }
}

/// Every name is at most each later one.
pub open spec fn sorted(names: Seq<Seq<char>>) -> bool {
    forall|i: int, j: int|
        0 <= i <= j < names.len() ==> lex_le(#[trigger] names[i], #[trigger] names[j])
}

proof fn lemma_lex_reflexive(a: Seq<char>)
    ensures
        lex_le(a, a),
    decreases a.len(),
{
    if a.len() > 0 {
        lemma_lex_reflexive(a.skip(1));
    }
}

proof fn lemma_lex_total(a: Seq<char>, b: Seq<char>)
    ensures
        lex_le(a, b) || lex_le(b, a),
    decreases a.len(),
{
    if a.len() > 0 && b.len() > 0 && a[0] == b[0] {
        lemma_lex_total(a.skip(1), b.skip(1));
    }
}

proof fn lemma_lex_transitive(a: Seq<char>, b: Seq<char>, c: Seq<char>)
    requires
        lex_le(a, b),
        lex_le(b, c),
    ensures
        lex_le(a, c),
    decreases a.len(),
{
    if a.len() > 0 && b.len() > 0 && c.len() > 0 && a[0] == b[0] && b[0] == c[0] {
        lemma_lex_transitive(a.skip(1), b.skip(1), c.skip(1));
    }
}

proof fn lemma_lex_antisymmetric(a: Seq<char>, b: Seq<char>)
    requires
        lex_le(a, b),
        lex_le(b, a),
    ensures
        a == b,
    decreases a.len(),
{
    if a.len() > 0 && b.len() > 0 {
        lemma_lex_antisymmetric(a.skip(1), b.skip(1));
        assert(a =~= seq![a[0]] + a.skip(1));
        assert(b =~= seq![b[0]] + b.skip(1));
    } else {
        assert(a =~= b);
    }
}

/// The directory of the datasets in the crate at `manifest_dir`.
pub fn data_dir(manifest_dir: &str) -> (dir: String)
    ensures
        dir@ == joined(joined(manifest_dir@, "src"@), "data"@),
        dir@ == joined(manifest_dir@, "src/data"@),
{
    let mut dir: String = String::from_str(manifest_dir);
    push_component(&mut dir, "src");
    push_component(&mut dir, "data");
    proof {
        reveal_strlit("src");
        reveal_strlit("data");
        reveal_strlit("src/data");
        let inner = joined(manifest_dir@, "src"@);
        assert(inner.last() == 'c');
        assert("src"@.push('/') + "data"@ =~= "src/data"@);
        assert(dir@ =~= joined(manifest_dir@, "src/data"@));
    }
    dir
}

fn push_component(base: &mut String, part: &str)
    ensures
        final(base)@ == joined(old(base)@, part@),
{
    let chars = text::chars_of(base.as_str());
    if chars.len() > 0 && chars[chars.len() - 1] != '/' {
        base.append("/");
        proof {
            reveal_strlit("/");
            assert(base@ == old(base)@.push('/'));
        }
    }
    base.append(part);
}

/// The path of the file `name` in the directory `dir`.
pub fn join_path(dir: &str, name: &str) -> (path: String)
    ensures
        path@ == joined(dir@, name@),
{
    let mut path: String = String::from_str(dir);
    push_component(&mut path, name);
    path
}

/// Whether `name` names a tabular dataset; code files do not.
pub fn is_dataset_file(name: &str) -> (r: bool)
    ensures
        r == is_dataset_name(name@),
{
    let chars = text::chars_of(name);
    let n: usize = chars.len();
    if n < 5 || chars[n - 4] != '.' {
        return false;
    }
    let a: char = chars[n - 3];
    let b: char = chars[n - 2];
    let c: char = chars[n - 1];
    assert(name@.skip(n - 3) == seq![a, b, c]);
    proof {
        let tail = name@.skip(n - 3);
        assert(tail == seq!['t', 'b', 'l'] ==> tail[0] == 't' && tail[1] == 'b' && tail[2] == 'l');
        assert(tail == seq!['c', 'v', 's'] ==> tail[0] == 'c' && tail[1] == 'v' && tail[2] == 's');
    }
    (a == 't' && b == 'b' && c == 'l') || (a == 'c' && b == 'v' && c == 's')
}

/// Whether `a` comes no later than `b` in lexicographic order.
pub fn text_le(a: &str, b: &str) -> (r: bool)
    ensures
        r == lex_le(a@, b@),
{
    let x = text::chars_of(a);
    let y = text::chars_of(b);
    let mut i: usize = 0;
    assert(a@.skip(0) == a@);
    assert(b@.skip(0) == b@);
    while i < x.len() && i < y.len() && x[i] == y[i]
        invariant
            i <= x@.len(),
            i <= y@.len(),
            x@ == a@,
            y@ == b@,
            lex_le(a@, b@) == lex_le(a@.skip(i as int), b@.skip(i as int)),
        decreases x@.len() - i,
    {
        assert(a@.skip(i as int).skip(1) == a@.skip(i + 1));
        assert(b@.skip(i as int).skip(1) == b@.skip(i + 1));
        i = i + 1;
    }
    if i == x.len() {
        true
    } else if i == y.len() {
        false
    } else {
        x[i] < y[i]
    }
}

/// Puts `name` where it belongs in the sorted `names`.
fn insert_sorted(names: &mut Vec<String>, name: String)
    requires
        sorted(text::string_views(old(names)@)),
    ensures
        sorted(text::string_views(final(names)@)),
        text::string_views(final(names)@).to_multiset() == text::string_views(old(names)@).to_multiset().insert(
            name@,
        ),
{
    let ghost before = text::string_views(names@);
    let mut at: usize = names.len();
    while at > 0 && !text_le(names[at - 1].as_str(), name.as_str())
        invariant
            at <= names@.len(),
            before == text::string_views(names@),
            names@ == old(names)@,
            sorted(before),
            forall|j: int| at <= j < before.len() ==> lex_le(name@, #[trigger] before[j]),
        decreases at,
    {
        proof {
            lemma_lex_total(before[at - 1], name@);
        }
        at = at - 1;
    }
    let ghost key = name@;
    names.insert(at, name);
    proof {
        let after = text::string_views(names@);
        assert(after =~= before.insert(at as int, key));
        to_multiset_insert(before, at as int, key);
        assert forall|i: int, j: int| 0 <= i <= j < after.len() implies lex_le(
            #[trigger] after[i],
            #[trigger] after[j],
        ) by {
            lemma_lex_reflexive(key);
            if i < at {
                assert(after[i] == before[i]);
                lemma_lex_transitive_through(before, i, at as int, key);
                if j > at {
                    assert(after[j] == before[j - 1]);
                }
            } else if j > at {
                assert(after[j] == before[j - 1]);
                if i > at {
                    assert(after[i] == before[i - 1]);
                }
            }
        }
    }
}

proof fn lemma_lex_transitive_through(names: Seq<Seq<char>>, i: int, at: int, key: Seq<char>)
    requires
        sorted(names),
        0 <= i < at <= names.len(),
        lex_le(names[at - 1], key),
    ensures
        lex_le(names[i], key),
{
    lemma_lex_transitive(names[i], names[at - 1], key);
}

/// The paths in the directory `dir` of the names in its listing that name a
/// dataset.
pub open spec fn dataset_paths(dir: Seq<char>, listing: Seq<Seq<char>>) -> Seq<Seq<char>>
    decreases listing.len(),
{
    if listing.len() == 0 {
        Seq::empty()
    } else {
        let before = dataset_paths(dir, listing.drop_last());
        if is_dataset_name(listing.last()) {
            before.push(joined(dir, listing.last()))
        } else {
            before
        }
    }
}

/// The paths of the datasets in the directory `dir`, in order. `listing` holds
/// the names of its files; code files among them are left out.
pub fn dataset_file_paths(dir: &str, listing: &[String]) -> (paths: Vec<String>)
    ensures
        sorted(text::string_views(paths@)),
        forall|i: int, j: int|
            0 <= i < j < paths@.len() ==> lex_le((#[trigger] paths@[i])@, (#[trigger] paths@[j])@),
        text::string_views(paths@).to_multiset() == dataset_paths(
            dir@,
            text::string_views(listing@),
        ).to_multiset(),
{
    let ghost all = text::string_views(listing@);
    let mut paths: Vec<String> = Vec::new();
    let mut i: usize = 0;
    assert(dataset_paths(dir@, all.take(0)) =~= text::string_views(paths@));
    while i < listing.len()
        invariant
            i <= listing@.len(),
            all == text::string_views(listing@),
            sorted(text::string_views(paths@)),
            text::string_views(paths@).to_multiset() == dataset_paths(
                dir@,
                all.take(i as int),
            ).to_multiset(),
        decreases listing@.len() - i,
    {
        proof {
            assert(all.take(i + 1).drop_last() == all.take(i as int));
            to_multiset_build(dataset_paths(dir@, all.take(i as int)), joined(dir@, all[i as int]));
        }
        if is_dataset_file(listing[i].as_str()) {
            insert_sorted(&mut paths, join_path(dir, listing[i].as_str()));
        }
        i = i + 1;
    }
    assert(all.take(i as int) == all);
    proof {
        let views = text::string_views(paths@);
        assert forall|a: int, b: int| 0 <= a < b < paths@.len() implies lex_le(
            (#[trigger] paths@[a])@,
            (#[trigger] paths@[b])@,
        ) by {
            assert(lex_le(views[a], views[b]));
        }
    }
    paths
}

/// The order and the selection fix the list: two sorted lists of the same paths
/// are equal.
pub proof fn law_sorted_paths_unique(a: Seq<Seq<char>>, b: Seq<Seq<char>>)
    requires
        sorted(a),
        sorted(b),
        a.to_multiset() == b.to_multiset(),
    ensures
        a == b,
    decreases a.len(),
{
    to_multiset_len(a);
    to_multiset_len(b);
    if a.len() > 0 {
        let x = a.last();
        let y = b.last();
        to_multiset_contains(a, x);
        to_multiset_contains(b, x);
        to_multiset_contains(a, y);
        to_multiset_contains(b, y);
        assert(a[a.len() - 1] == x);
        assert(b[b.len() - 1] == y);
        assert(a.contains(x));
        assert(b.contains(y));
        let i = choose|i: int| 0 <= i < b.len() && b[i] == x;
        let j = choose|j: int| 0 <= j < a.len() && a[j] == y;
        assert(lex_le(b[i], b[b.len() - 1]));
        assert(lex_le(a[j], a[a.len() - 1]));
        lemma_lex_antisymmetric(x, y);
        to_multiset_build(a.drop_last(), x);
        to_multiset_build(b.drop_last(), y);
        assert(a.drop_last().push(x) =~= a);
        assert(b.drop_last().push(y) =~= b);
        assert(a.drop_last().to_multiset() =~= a.to_multiset().remove(x));
        assert(b.drop_last().to_multiset() =~= b.to_multiset().remove(y));
        law_sorted_paths_unique(a.drop_last(), b.drop_last());
    } else {
        assert(a =~= b);
    }
}

/// A component follows its directory behind exactly one slash, which a directory
/// may already end with; it stands alone where there is no directory.
pub proof fn law_joining_puts_one_slash_between(base: Seq<char>, part: Seq<char>)
    ensures
        joined(Seq::empty(), part) == part,
        joined(base.push('/'), part) == base.push('/') + part,
        base.len() > 0 && base.last() != '/' ==> joined(base, part) == joined(
            base.push('/'),
            part,
        ),
{
    assert(joined(Seq::empty(), part) =~= part);
}

/// What follows the last dot of a name decides whether it is a dataset: exactly
/// `tbl` and `cvs` do, behind something.
pub proof fn law_last_dot_decides(stem: Seq<char>, extension: Seq<char>)
    requires
        !extension.contains('.'),
    ensures
        is_dataset_name(stem.push('.') + extension) <==> stem.len() > 0 && (extension == seq![
            't',
            'b',
            'l',
        ] || extension == seq!['c', 'v', 's']),
{
    let name = stem.push('.') + extension;
    let n = name.len() as int;
    let tbl = seq!['t', 'b', 'l'];
    let cvs = seq!['c', 'v', 's'];
    assert(name.skip(stem.len() as int + 1) =~= extension);
    assert(name[stem.len() as int] == '.');
    if is_dataset_name(name) {
        let tail = name.skip(n - 3);
        assert(tail == tbl || tail == cvs);
        assert(tbl[0] == 't' && tbl[1] == 'b' && tbl[2] == 'l');
        assert(cvs[0] == 'c' && cvs[1] == 'v' && cvs[2] == 's');
        assert(tail[0] != '.' && tail[1] != '.' && tail[2] != '.');
        if extension.len() < 3 {
            assert(tail[stem.len() - (n - 3)] == name[stem.len() as int]);
        } else if extension.len() > 3 {
            assert(extension[n - 4 - stem.len() - 1] == name[n - 4]);
            assert(extension.contains('.'));
        }
    }
}

/// A name without a dot is no dataset.
pub proof fn law_name_without_a_dot_is_no_dataset(name: Seq<char>)
    requires
        !name.contains('.'),
    ensures
        !is_dataset_name(name),
{
}

/// A name whose last three characters are neither `tbl` nor `cvs` is no dataset.
pub proof fn law_other_endings_are_no_datasets(name: Seq<char>)
    requires
        name.len() >= 3,
        name.skip(name.len() - 3) != seq!['t', 'b', 'l'],
        name.skip(name.len() - 3) != seq!['c', 'v', 's'],
    ensures
        !is_dataset_name(name),
{
}

/// The first difference decides the order of two texts, and a text comes before
/// its continuations.
pub proof fn law_first_difference_decides(
    common: Seq<char>,
    x: char,
    rest1: Seq<char>,
    y: char,
    rest2: Seq<char>,
)
    requires
        x < y,
    ensures
        lex_le(common.push(x) + rest1, common.push(y) + rest2),
        !lex_le(common.push(y) + rest2, common.push(x) + rest1),
        lex_le(common, common.push(x) + rest1),
        !lex_le(common.push(x) + rest1, common),
        lex_le(common, common),
    decreases common.len(),
{
    let a = common.push(x) + rest1;
    let b = common.push(y) + rest2;
    if common.len() > 0 {
        let shorter = common.skip(1);
        assert(a.skip(1) =~= shorter.push(x) + rest1);
        assert(b.skip(1) =~= shorter.push(y) + rest2);
        assert(a[0] == common[0] && b[0] == common[0]);
        law_first_difference_decides(shorter, x, rest1, y, rest2);
    }
}

/// The order is total: reflexive, antisymmetric and transitive, and of any two
/// texts one comes first.
pub proof fn law_order_is_total(a: Seq<char>, b: Seq<char>, c: Seq<char>)
    ensures
        lex_le(a, a),
        lex_le(a, b) || lex_le(b, a),
        lex_le(a, b) && lex_le(b, a) ==> a == b,
        lex_le(a, b) && lex_le(b, c) ==> lex_le(a, c),
{
    lemma_lex_reflexive(a);
    lemma_lex_total(a, b);
    if lex_le(a, b) && lex_le(b, a) {
        lemma_lex_antisymmetric(a, b);
    }
    if lex_le(a, b) && lex_le(b, c) {
        lemma_lex_transitive(a, b, c);
    }
}

/// Every entry of a listing counts by itself: the paths of two listings follow
/// each other, a dataset has its one path in the directory, and another file has
/// none.
pub proof fn law_every_listed_file_counts(
    dir: Seq<char>,
    listing1: Seq<Seq<char>>,
    listing2: Seq<Seq<char>>,
    name: Seq<char>,
)
    ensures
        dataset_paths(dir, listing1 + listing2) == dataset_paths(dir, listing1) + dataset_paths(
            dir,
            listing2,
        ),
        is_dataset_name(name) ==> dataset_paths(dir, seq![name]) == seq![joined(dir, name)],
        !is_dataset_name(name) ==> dataset_paths(dir, seq![name]).len() == 0,
    decreases listing2.len(),
{
    let none = Seq::<Seq<char>>::empty();
    assert(seq![name].drop_last() =~= none);
    assert(dataset_paths(dir, none).len() == 0);
    if is_dataset_name(name) {
        assert(dataset_paths(dir, seq![name]) =~= seq![joined(dir, name)]);
    }
    if listing2.len() == 0 {
        assert(listing1 + listing2 =~= listing1);
        assert(dataset_paths(dir, listing1) + dataset_paths(dir, listing2) =~= dataset_paths(
            dir,
            listing1,
        ));
    } else {
        let both = listing1 + listing2;
        assert(both.drop_last() =~= listing1 + listing2.drop_last());
        assert(both.last() == listing2.last());
        law_every_listed_file_counts(dir, listing1, listing2.drop_last(), name);
        assert(dataset_paths(dir, both) =~= dataset_paths(dir, listing1) + dataset_paths(
            dir,
            listing2,
        ));
    }
}

/// A path is listed exactly where it is that of a listed dataset.
pub proof fn law_listed_paths(dir: Seq<char>, listing: Seq<Seq<char>>, path: Seq<char>)
    ensures
        dataset_paths(dir, listing).contains(path) <==> exists|i: int|
            0 <= i < listing.len() && is_dataset_name(#[trigger] listing[i]) && path == joined(
                dir,
                listing[i],
            ),
    decreases listing.len(),
{
    if listing.len() > 0 {
        let before = listing.drop_last();
        let paths = dataset_paths(dir, listing);
        let shorter = dataset_paths(dir, before);
        law_listed_paths(dir, before, path);
        assert(listing.last() == listing[listing.len() - 1]);
        if paths.contains(path) {
            let k = choose|k: int| 0 <= k < paths.len() && paths[k] == path;
            if k < shorter.len() {
                assert(shorter[k] == path);
                let i = choose|i: int|
                    0 <= i < before.len() && is_dataset_name(#[trigger] before[i]) && path
                        == joined(dir, before[i]);
                assert(listing[i] == before[i]);
            }
        }
        if exists|i: int|
            0 <= i < listing.len() && is_dataset_name(#[trigger] listing[i]) && path == joined(
                dir,
                listing[i],
            ) {
            let i = choose|i: int|
                0 <= i < listing.len() && is_dataset_name(#[trigger] listing[i]) && path == joined(
                    dir,
                    listing[i],
                );
            if i < before.len() {
                assert(before[i] == listing[i]);
                let k = choose|k: int| 0 <= k < shorter.len() && shorter[k] == path;
                assert(paths[k] == path);
            } else {
                assert(paths[paths.len() - 1] == path);
            }
        }
    }
}

/// In a sorted list each name comes no later than every one behind it.
pub proof fn law_sorted_lists_go_upwards(names: Seq<Seq<char>>, i: int, j: int)
    requires
        sorted(names),
        0 <= i < j < names.len(),
    ensures
        lex_le(names[i], names[j]),
{
}

} // verus!
