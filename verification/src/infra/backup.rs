//! Where the crash-recovery copies of sessions go, and which old ones are
//! removed to keep their number bounded.
use vstd::prelude::*;
use crate::infra::recorder::{path_file_name, path_file_name_of};
use crate::text::to_owned_string;

verus! {

/// How many backup files are kept.
pub const MAX_BACKUP_FILES: usize = 10;

/// The user's configuration directory (`dirs::config_dir`), as text. It
/// depends on the platform and the environment; nothing is stated of it.
#[verifier::external_body]
fn config_dir() -> Option<String> {
    dirs::config_dir().map(|dir| dir.to_string_lossy().into_owned())
}

/// What `Path::join` gives for `base` joined with `name`, as text (by the
/// path rules of the platform built for).
pub uninterp spec fn path_joined(base: Seq<char>, name: Seq<char>) -> Seq<char>;

/// `base` joined with `name` (`Path::join`), as text.
#[verifier::external_body]
fn path_join(base: &str, name: &str) -> (r: String)
    ensures
        r@ == path_joined(base@, name@),
{
    std::path::Path::new(base).join(name).to_string_lossy().into_owned()
}

/// The backup directory: `scope/backup` under the configuration directory
/// `config`, or under the working directory when there is none.
pub open spec fn backup_dir_spec(config: Option<Seq<char>>) -> Seq<char> {
    match config {
        Some(dir) => path_joined(path_joined(dir, "scope"@), "backup"@),
        None => path_joined("scope"@, "backup"@),
    }
}

/// The part of `file_name` a backup is named after: its last component,
/// or the whole name when it has none.
pub open spec fn backup_name_spec(file_name: Seq<char>) -> Seq<char> {
    match path_file_name_of(file_name) {
        Some(n) => n,
        None => file_name,
    }
}

/// The path of the backup of `file_name` when the configuration
/// directory is `config`: the backup directory joined with the last
/// component of the name only, so that `..` or an absolute path in it
/// cannot lead elsewhere.
pub open spec fn backup_path_spec(config: Option<Seq<char>>, file_name: Seq<char>) -> Seq<char> {
    path_joined(backup_dir_spec(config), backup_name_spec(file_name))
}

/// A directory as text, if there is one.
pub open spec fn dir_view(config: Option<String>) -> Option<Seq<char>> {
    match config {
        Some(d) => Some(d@),
        None => None,
    }
}

/// The path of the backup file `file_name` when the configuration
/// directory is `config` (see `backup_path_spec`).
pub fn backup_path_in(config: Option<String>, file_name: &str) -> (r: String)
    ensures
        r@ == backup_path_spec(dir_view(config), file_name@),
{
    let base = match config {
        Some(dir) => path_join(path_join(dir.as_str(), "scope").as_str(), "backup"),
        None => path_join("scope", "backup"),
    };
    let name = match path_file_name(file_name) {
        Some(n) => n,
        None => to_owned_string(file_name),
    };
    path_join(base.as_str(), name.as_str())
}

/// The path of the backup file `file_name` in the backup directory under
/// the user's configuration directory, whatever that directory is (see
/// `backup_path_spec`).
pub fn backup_path(file_name: &str) -> (r: String)
    ensures
        exists|config: Option<Seq<char>>| r@ == #[trigger] backup_path_spec(config, file_name@),
{
    let config = config_dir();
    let ghost c = dir_view(config);
    let r = backup_path_in(config, file_name);
    assert(r@ == backup_path_spec(c, file_name@));
    r
}

/// Whether `files` are in order of age, oldest first.
pub open spec fn oldest_first(files: Seq<(String, u64)>) -> bool {
    forall|i: int, j: int| 0 <= i < j < files.len() ==> files[i].1 <= files[j].1
}

/// Whether `output` is made of files of `input`, the file at `i` being the
/// one at `idx[i]`, and files of the same age come in their order in
/// `input`.
pub open spec fn kept_age_order(input: Seq<(String, u64)>, output: Seq<(String, u64)>, idx: Seq<int>) -> bool {
    &&& idx.len() == output.len()
    &&& forall|i: int| 0 <= i < output.len() ==> 0 <= #[trigger] idx[i] < input.len() && output[i] == input[idx[i]]
    &&& forall|i: int, j: int| 0 <= i < j < output.len() && output[i].1 == output[j].1 ==> idx[i] < idx[j]
}

/// Puts backup files (each with its modification time) oldest first;
/// files of the same age keep their order.
fn sort_by_age(files: Vec<(String, u64)>) -> (r: Vec<(String, u64)>)
    ensures
        oldest_first(r@),
        r@.to_multiset() == files@.to_multiset(),
        exists|idx: Seq<int>| kept_age_order(files@, r@, idx),
{
    broadcast use vstd::seq_lib::group_to_multiset_ensures, vstd::multiset::group_multiset_axioms;

    let ghost all = files@;
    let mut rest = files;
    let mut out: Vec<(String, u64)> = Vec::new();
    let ghost mut idx: Seq<int> = Seq::empty();
    assert(out@.to_multiset().add(rest@.to_multiset()) =~= all.to_multiset());
    assert(rest@ =~= all.skip(0));
    while rest.len() > 0
        invariant
            oldest_first(out@),
            out@.to_multiset().add(rest@.to_multiset()) == all.to_multiset(),
            rest@.len() <= all.len(),
            rest@ == all.skip(all.len() - rest@.len()),
            idx.len() == out@.len(),
            forall|i: int|
                0 <= i < out@.len() ==> 0 <= #[trigger] idx[i] < all.len() - rest@.len() && out@[i] == all[idx[i]],
            forall|i: int, j: int| 0 <= i < j < out@.len() && out@[i].1 == out@[j].1 ==> idx[i] < idx[j],
        decreases rest.len(),
    {
        let ghost before_rest = rest@;
        let ghost before_out = out@;
        let ghost before_idx = idx;
        let ghost n: int = all.len() - rest@.len();
        let x = rest.remove(0);
        assert(x == all[n]);
        let mut k: usize = 0;
        while k < out.len() && out[k].1 <= x.1
            invariant
                k <= out@.len(),
                out@ == before_out,
                forall|q: int| 0 <= q < k ==> #[trigger] out@[q].1 <= x.1,
            decreases out.len() - k,
        {
            k += 1;
        }
        out.insert(k, x);
        assert(out@ == before_out.insert(k as int, x));
        proof {
            idx = before_idx.insert(k as int, n);
            assert(rest@ =~= all.skip(all.len() - rest@.len()));
            assert forall|i: int| 0 <= i < out@.len() implies 0 <= #[trigger] idx[i] < all.len() - rest@.len()
                && out@[i] == all[idx[i]] by {
                if i > k {
                    assert(idx[i] == before_idx[i - 1]);
                    assert(out@[i] == before_out[i - 1]);
                } else if i < k {
                    assert(idx[i] == before_idx[i]);
                }
            }
            assert forall|i: int, j: int| 0 <= i < j < out@.len() && out@[i].1 == out@[j].1 implies idx[i]
                < idx[j] by {
                if j < k {
                    assert(idx[i] == before_idx[i] && idx[j] == before_idx[j]);
                } else if j == k {
                    assert(idx[i] == before_idx[i]);
                } else if i < k {
                    assert(idx[i] == before_idx[i] && idx[j] == before_idx[j - 1]);
                    assert(out@[j] == before_out[j - 1]);
                } else if i == k {
                    assert(out@[j] == before_out[j - 1]);
                    assert(before_out[k as int].1 > x.1);
                    if j - 1 > k {
                        assert(before_out[k as int].1 <= before_out[j - 1].1);
                    }
                } else {
                    assert(idx[i] == before_idx[i - 1] && idx[j] == before_idx[j - 1]);
                    assert(out@[i] == before_out[i - 1]);
                    assert(out@[j] == before_out[j - 1]);
                }
            }
        }
        assert(oldest_first(out@)) by {
            assert forall|i: int, j: int| 0 <= i < j < out@.len() implies out@[i].1 <= out@[j].1 by {
                if i < k && j < k {
                } else if i < k && j == k {
                } else if i < k {
                    assert(out@[j] == before_out[j - 1]);
                } else if i == k {
                    assert(out@[j] == before_out[j - 1]);
                    assert(before_out[k as int].1 > x.1);
                } else {
                    assert(out@[i] == before_out[i - 1]);
                    assert(out@[j] == before_out[j - 1]);
                }
            }
        }
        proof {
            vstd::seq_lib::to_multiset_remove(before_rest, 0);
            vstd::seq_lib::to_multiset_insert(before_out, k as int, x);
            assert(before_rest.contains(x));
            vstd::seq_lib::to_multiset_contains(before_rest, x);
        }
        assert(rest@ == before_rest.remove(0));
        assert(out@.to_multiset().add(rest@.to_multiset()) =~= before_out.to_multiset().add(before_rest.to_multiset()));
    }
    assert(rest@.to_multiset() =~= vstd::multiset::Multiset::<(String, u64)>::empty());
    assert(out@.to_multiset() =~= all.to_multiset());
    assert(kept_age_order(all, out@, idx));
    out
}

/// How many of `count` other backups go so that, with the one being
/// written, at most `keep` remain.
pub open spec fn prune_count(count: int, keep: int) -> int {
    let room = if keep >= 1 { keep - 1 } else { 0 };
    if count <= room { 0 } else { count - room }
}

/// The backups to remove among `others` (each with its modification time),
/// the one being written aside: the oldest ones beyond what `keep` allows
/// (see `prune_count`). Every removed file is one of `others`, and none is
/// newer than a kept one.
pub fn backups_to_prune(others: Vec<(String, u64)>, keep: usize) -> (r: Vec<(String, u64)>)
    ensures
        r@.len() == prune_count(others@.len() as int, keep as int),
        exists|sorted: Seq<(String, u64)>|
            #[trigger] oldest_first(sorted) && sorted.to_multiset() == others@.to_multiset() && r@ == sorted.take(
                r@.len() as int,
            ),
{
    let room = if keep >= 1 { keep - 1 } else { 0 };
    let count = others.len();
    if count <= room {
        let out: Vec<(String, u64)> = Vec::new();
        proof {
            let s = sort_spec_witness(others@);
            assert(out@ =~= s.take(0));
        }
        return out;
    }
    let ghost given = others@;
    let sorted = sort_by_age(others);
    proof {
        vstd::seq_lib::to_multiset_len(sorted@);
        vstd::seq_lib::to_multiset_len(given);
    }
    let remove = count - room;
    let mut out = sorted;
    out.truncate(remove);
    out
}

/// Some ordering of `files` oldest first exists.
proof fn sort_spec_witness(files: Seq<(String, u64)>) -> (s: Seq<(String, u64)>)
    ensures
        oldest_first(s),
        s.to_multiset() == files.to_multiset(),
    decreases files.len(),
{
    broadcast use vstd::seq_lib::group_to_multiset_ensures, vstd::multiset::group_multiset_axioms;

    if files.len() == 0 {
        files
    } else {
        let rest = sort_spec_witness(files.drop_last());
        let x = files.last();
        let k = choose_insert_point(rest, x);
        let s = rest.insert(k, x);
        assert(oldest_first(s)) by {
            assert forall|i: int, j: int| 0 <= i < j < s.len() implies s[i].1 <= s[j].1 by {
                if i < k && j < k {
                } else if i < k && j == k {
                } else if i < k {
                    assert(s[j] == rest[j - 1]);
                } else if i == k {
                    assert(s[j] == rest[j - 1]);
                } else {
                    assert(s[i] == rest[i - 1]);
                    assert(s[j] == rest[j - 1]);
                }
            }
        }
        vstd::seq_lib::to_multiset_insert(rest, k, x);
        assert(files == files.drop_last().push(x));
        s
    }
}

/// Where `x` goes in `sorted` to keep it in order: after every entry no
/// newer than it.
proof fn choose_insert_point(sorted: Seq<(String, u64)>, x: (String, u64)) -> (k: int)
    requires
        oldest_first(sorted),
    ensures
        0 <= k <= sorted.len(),
        forall|q: int| 0 <= q < k ==> #[trigger] sorted[q].1 <= x.1,
        forall|q: int| k <= q < sorted.len() ==> #[trigger] sorted[q].1 > x.1,
    decreases sorted.len(),
{
    if sorted.len() == 0 {
        0
    } else if sorted.last().1 <= x.1 {
        sorted.len() as int
    } else {
        let k = choose_insert_point(sorted.drop_last(), x);
        assert forall|q: int| k <= q < sorted.len() implies #[trigger] sorted[q].1 > x.1 by {
            if q < sorted.len() - 1 {
                assert(sorted[q] == sorted.drop_last()[q]);
            }
        }
        assert forall|q: int| 0 <= q < k implies #[trigger] sorted[q].1 <= x.1 by {
            assert(sorted[q] == sorted.drop_last()[q]);
        }
        k
    }
}

} // verus!
