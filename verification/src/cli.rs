//! The computing parts of the command line tool: where `init` puts the files
//! of a new workspace, and how `plan` shows a planned pipeline.
use crate::dag::manifest::{op_udfs, Operator};
use vstd::prelude::*;

verus! {

/// The files and the directory that `init` creates for a workspace.
pub struct WorkspacePaths {
    /// `<name>/udfs/src`, created with its parents.
    pub udfs_src_dir: String,
    /// `<name>/manifest.toml`, the example pipeline manifest.
    pub manifest_toml: String,
    /// `<name>/udfs/Cargo.toml`, the manifest of the UDF crate.
    pub udfs_cargo_toml: String,
    /// `<name>/udfs/src/lib.rs`, the example UDFs.
    pub udfs_lib_rs: String,
}

/// `s` followed by `suffix`.
fn joined(s: &str, suffix: &str) -> (r: String)
    ensures
        r@ == s@ + suffix@,
{
    let mut r = s.to_owned();
    r.append(suffix);
    r
}

/// The paths of the files and the directory of a new workspace.
pub fn workspace_paths(workspace_name: &str) -> (r: WorkspacePaths)
    ensures
        r.udfs_src_dir@ == workspace_name@ + "/udfs/src"@,
        r.manifest_toml@ == workspace_name@ + "/manifest.toml"@,
        r.udfs_cargo_toml@ == workspace_name@ + "/udfs/Cargo.toml"@,
        r.udfs_lib_rs@ == workspace_name@ + "/udfs/src/lib.rs"@,
{
    WorkspacePaths {
        udfs_src_dir: joined(workspace_name, "/udfs/src"),
        manifest_toml: joined(workspace_name, "/manifest.toml"),
        udfs_cargo_toml: joined(workspace_name, "/udfs/Cargo.toml"),
        udfs_lib_rs: joined(workspace_name, "/udfs/src/lib.rs"),
    }
}

/// The strings of `parts` with `sep` between each two neighbours.
pub open spec fn join_with(parts: Seq<Seq<char>>, sep: Seq<char>) -> Seq<char>
    decreases parts.len(),
{
    if parts.len() == 0 {
        Seq::empty()
    } else if parts.len() == 1 {
        parts[0]
    } else {
        join_with(parts.drop_last(), sep) + sep + parts.last()
    }
}

/// The total length of the strings of `parts`.
pub open spec fn total_len(parts: Seq<Seq<char>>) -> int
    decreases parts.len(),
{
    if parts.len() == 0 {
        0
    } else {
        total_len(parts.drop_last()) + parts.last().len()
    }
}

/// Joining no strings gives the empty string, and one string gives itself.
pub proof fn lemma_join_with_short(sep: Seq<char>, x: Seq<char>)
    ensures
        join_with(Seq::empty(), sep) == Seq::<char>::empty(),
        join_with(seq![x], sep) == x,
{
}

/// Joining one more string appends the separator and that string to the
/// join of the others.
pub proof fn lemma_join_with_push(parts: Seq<Seq<char>>, sep: Seq<char>, x: Seq<char>)
    requires
        parts.len() >= 1,
    ensures
        join_with(parts.push(x), sep) == join_with(parts, sep) + sep + x,
{
    assert(parts.push(x).drop_last() =~= parts);
}

/// The joined line holds every string and one separator between each two
/// neighbours: its length is the total length of the strings plus
/// `parts.len() - 1` separators.
pub proof fn lemma_join_with_len(parts: Seq<Seq<char>>, sep: Seq<char>)
    requires
        parts.len() >= 1,
    ensures
        join_with(parts, sep).len() == total_len(parts) + (parts.len() - 1) * sep.len(),
    decreases parts.len(),
{
    let n = parts.len() as int;
    let w = sep.len() as int;
    if n > 1 {
        let init = parts.drop_last();
        lemma_join_with_len(init, sep);
        assert(init.len() == n - 1);
        assert(join_with(init, sep).len() == total_len(init) + (n - 2) * w);
        assert(join_with(parts, sep) == join_with(init, sep) + sep + parts.last());
        assert(total_len(parts) == total_len(init) + parts.last().len());
        assert((n - 2) * w + w == (n - 1) * w) by (nonlinear_arith);
    } else {
        assert(parts.drop_last().len() == 0);
        assert(join_with(parts, sep) == parts[0]);
        assert(total_len(parts.drop_last()) == 0);
        assert(total_len(parts) == parts.last().len());
        assert((n - 1) * w == 0) by (nonlinear_arith)
            requires
                n == 1,
        ;
    }
}

/// The printed plan of one more operator is the printed plan of the others,
/// `" -> "` and that operator's UDF name.
pub proof fn lemma_plan_summary_push(sorted: Seq<&Operator>, o: &Operator)
    requires
        sorted.len() >= 1,
    ensures
        join_with(op_udfs(sorted.push(o)), " -> "@) == join_with(op_udfs(sorted), " -> "@)
            + " -> "@ + o.udf_name@,
{
    assert(op_udfs(sorted.push(o)) =~= op_udfs(sorted).push(o.udf_name@));
    lemma_join_with_push(op_udfs(sorted), " -> "@, o.udf_name@);
}

/// The line that `plan` prints: the UDF names of the planned operators in
/// plan order, joined by `" -> "`.
pub fn plan_summary(sorted: &Vec<&Operator>) -> (r: String)
    ensures
        r@ == join_with(op_udfs(sorted@), " -> "@),
{
    let mut r = String::new();
    for i in 0..sorted.len()
        invariant
            r@ == join_with(op_udfs(sorted@.take(i as int)), " -> "@),
    {
        let ghost prev = op_udfs(sorted@.take(i as int));
        if i != 0 {
            r.append(" -> ");
        }
        r.append(sorted[i].udf_name.as_str());
        assert(op_udfs(sorted@.take(i + 1)) =~= prev.push(sorted@[i as int].udf_name@));
        assert(op_udfs(sorted@.take(i + 1)).drop_last() =~= prev);
        if i == 0 {
            assert(prev.len() == 0);
            assert(r@ =~= join_with(op_udfs(sorted@.take(i + 1)), " -> "@));
        }
    }
    assert(sorted@.take(sorted@.len() as int) =~= sorted@);
    r
}

/// Applies the planned pipeline: there is nothing to do yet.
pub fn apply() {
}

} // verus!
