//! A sample of the TypeScript files of a directory, ordered by how well they are cut.
use vstd::prelude::*;

use crate::outside;
use crate::paths;
use crate::text;

verus! {

/// What was found of a file.
pub struct AuditEntry {
    /// The report on the chunks of the file.
    pub report: String,
    /// The path of the file, as it is shown.
    pub path: String,
    /// What the file is ordered by: lower for a lower score, equal for an equal one.
    pub rank: i64,
}

// ---------------------------------------------------------------------------
// Which files
// ---------------------------------------------------------------------------

/// Whether a path whose last component is the name `name` is that of a TypeScript file
/// that is not a dependency.
pub open spec fn audited_as(name: Option<Seq<char>>, path: Seq<char>) -> bool {
    &&& name matches Some(n) && paths::extension_of(n) == Some("ts"@)
    &&& !text::occurs_in("node_modules"@, path)
}

/// Whether a path is that of a TypeScript file that is not a dependency.
pub open spec fn audited(path: Seq<char>) -> bool {
    audited_as(paths::name_in(path), path)
}

/// Whether a file is looked at, from its name and its path.
pub fn is_audited_as(name: Option<&str>, path: &str) -> (r: bool)
    ensures
        r == audited_as(text::opt_text(name), path@),
{
    let is_ts = match name {
        Some(n) => match paths::extension(n) {
            Some(e) => text::same_text(e.as_str(), "ts"),
            None => false,
        },
        None => false,
    };
    is_ts && !text::contains(path, "node_modules")
}

/// Whether a path is that of a TypeScript file that is not a dependency.
///
/// The extension is stated of the paths that every platform reads alike; a dependency
/// is left out on every path.
pub fn is_audited(path: &str) -> (r: bool)
    ensures
        paths::portable(path@) ==> r == audited(path@),
        text::occurs_in("node_modules"@, path@) ==> !r,
{
    let file = outside::file_name(path);
    let name = match &file {
        Some(f) => Some(f.as_str()),
        None => None,
    };
    is_audited_as(name, path)
}

/// Whether some positions are a sample of `amount` out of `count`: as many as asked for,
/// or all where there are fewer, and none twice.
pub open spec fn is_sample(sample: Seq<usize>, count: nat, amount: nat) -> bool {
    &&& sample.len() == if amount < count {
        amount
    } else {
        count
    }
    &&& sample.no_duplicates()
    &&& forall|i: int| 0 <= i < sample.len() ==> #[trigger] sample[i] < count
}

/// The positions of the files that are looked at, chosen at random out of `count` files.
/// There is no sample where there are no files.
pub fn sample_files(count: usize, amount: usize) -> (r: Result<Vec<usize>, String>)
    ensures
        r is Err <==> count == 0,
        r matches Ok(sample) ==> is_sample(sample@, count as nat, amount as nat),
        r matches Err(e) ==> e@ == "No TypeScript files found"@,
{
    if count == 0 {
        return Err("No TypeScript files found".to_owned());
    }
    let mut pool: Vec<usize> = Vec::new();
    let mut i: usize = 0;
    while i < count
        invariant
            i <= count,
            pool@.len() == i,
            forall|k: int| 0 <= k < i ==> #[trigger] pool@[k] == k,
        decreases count - i,
    {
        pool.push(i);
        i += 1;
    }
    if count > 0xffff_ffff && amount >= count {
        return Ok(pool);
    }
    let sample = outside::choose_multiple(&pool, amount);
    proof {
        lemma_sample(sample@, pool@);
    }
    Ok(sample)
}

/// What is chosen out of positions that differ are positions that differ.
proof fn lemma_sample(sample: Seq<usize>, pool: Seq<usize>)
    requires
        sample.to_multiset().subset_of(pool.to_multiset()),
        forall|k: int| 0 <= k < pool.len() ==> #[trigger] pool[k] == k,
    ensures
        sample.no_duplicates(),
        forall|i: int| 0 <= i < sample.len() ==> #[trigger] sample[i] < pool.len(),
{
    broadcast use vstd::seq_lib::group_to_multiset_ensures;

    assert(pool.no_duplicates());
    pool.lemma_multiset_has_no_duplicates();
    assert forall|i: int| 0 <= i < sample.len() implies #[trigger] sample[i] < pool.len() by {
        assert(sample.to_multiset().count(sample[i]) > 0);
        assert(pool.to_multiset().count(sample[i]) > 0);
        assert(pool.contains(sample[i]));
    }
    assert(sample.to_multiset().len() == sample.len());
    assert forall|x: usize| sample.to_multiset().contains(x) implies sample.to_multiset().count(x)
        == 1 by {
        assert(pool.to_multiset().contains(x));
        assert(sample.to_multiset().count(x) <= pool.to_multiset().count(x));
    }
    sample.lemma_multiset_has_no_duplicates_conv();
}

// ---------------------------------------------------------------------------
// Order
// ---------------------------------------------------------------------------

/// Whether the entry at `a` comes before the one at `b`: by rank, and by position where
/// the ranks are equal.
pub open spec fn comes_before(entries: Seq<AuditEntry>, a: usize, b: usize) -> bool {
    ||| entries[a as int].rank < entries[b as int].rank
    ||| entries[a as int].rank == entries[b as int].rank && a < b
}

/// Whether `order` names every entry once, from the lowest rank to the highest, and
/// keeps the order in which entries of an equal rank stand.
pub open spec fn is_order(entries: Seq<AuditEntry>, order: Seq<usize>) -> bool {
    &&& order.len() == entries.len()
    &&& forall|i: int| 0 <= i < order.len() ==> #[trigger] order[i] < entries.len()
    &&& forall|i: int, k: int|
        0 <= i < k < order.len() ==> comes_before(entries, #[trigger] order[i], #[trigger] order[k])
}

/// The positions of the entries, from the lowest rank to the highest.
pub fn order_entries(entries: &Vec<AuditEntry>) -> (r: Vec<usize>)
    ensures
        is_order(entries@, r@),
{
    let mut r: Vec<usize> = Vec::new();
    let mut n: usize = 0;
    while n < entries.len()
        invariant
            n <= entries@.len(),
            r@.len() == n,
            forall|i: int| 0 <= i < r@.len() ==> #[trigger] r@[i] < n,
            forall|i: int, k: int|
                0 <= i < k < r@.len() ==> comes_before(entries@, #[trigger] r@[i], #[trigger] r@[k]),
        decreases entries@.len() - n,
    {
        let mut at: usize = n;
        while at > 0 && entries[r[at - 1]].rank > entries[n].rank
            invariant
                at <= n < entries@.len(),
                r@.len() == n,
                forall|i: int| 0 <= i < r@.len() ==> #[trigger] r@[i] < n,
                forall|i: int, k: int|
                    0 <= i < k < r@.len() ==> comes_before(
                        entries@,
                        #[trigger] r@[i],
                        #[trigger] r@[k],
                    ),
                forall|k: int|
                    at <= k < n ==> entries@[(#[trigger] r@[k]) as int].rank
                        > entries@[n as int].rank,
            decreases at,
        {
            at -= 1;
        }
        let ghost before = r@;
        r.insert(at, n);
        proof {
            assert forall|i: int, k: int| 0 <= i < k < r@.len() implies comes_before(
                entries@,
                #[trigger] r@[i],
                #[trigger] r@[k],
            ) by {
                let a = if i < at {
                    before[i]
                } else {
                    before[i - 1]
                };
                let b = if k < at {
                    before[k]
                } else {
                    before[k - 1]
                };
                if i != at {
                    assert(r@[i] == a);
                }
                if k != at {
                    assert(r@[k] == b);
                }
                if k == at {
                    assert(at > 0);
                    if i < at - 1 {
                        assert(comes_before(entries@, before[i], before[at - 1]));
                    }
                }
            }
            assert forall|i: int| 0 <= i < r@.len() implies #[trigger] r@[i] < n + 1 by {
                if i < at {
                    assert(r@[i] == before[i]);
                } else if i > at {
                    assert(r@[i] == before[i - 1]);
                }
            }
        }
        n += 1;
    }
    r
}

// ---------------------------------------------------------------------------
// Texts
// ---------------------------------------------------------------------------

/// What is printed before a sample is taken.
pub fn audit_header(count: usize, dir: &str) -> (r: String)
    ensures
        r@ == "📊 Sampling "@ + text::decimal(count as nat) + " TypeScript files from: "@ + dir@
            + "\n\n"@,
{
    let mut r = "📊 Sampling ".to_owned();
    r.append(text::number(count as u64).as_str());
    r.append(" TypeScript files from: ");
    r.append(dir);
    r.append("\n\n");
    r
}

/// How the path of a file is shown: what is left of it behind the directory, or all of it
/// where it is not in the directory.
pub fn shown_path(behind: Option<&str>, path: &str) -> (r: String)
    ensures
        r@ == match behind {
            Some(b) => b@,
            None => path@,
        },
{
    match behind {
        Some(b) => b.to_owned(),
        None => path.to_owned(),
    }
}

/// Entries in an order, numbered from one.
pub open spec fn numbered(entries: Seq<AuditEntry>, order: Seq<usize>) -> Seq<char>
    decreases order.len(),
{
    if order.len() == 0 {
        Seq::empty()
    } else {
        let e = entries[order.last() as int];
        numbered(entries, order.drop_last()) + (text::decimal(order.len()) + ". "@ + e.report@
            + " "@ + e.path@ + "\n"@)
    }
}

/// What is printed of the entries.
pub fn audit_report(entries: &Vec<AuditEntry>) -> (r: String)
    ensures
        exists|order: Seq<usize>| is_order(entries@, order) && r@ == #[trigger] numbered(
            entries@,
            order,
        ),
{
    let order = order_entries(entries);
    let count: usize = order.len();
    let mut r = String::new();
    let mut i: usize = 0;
    while i < count
        invariant
            is_order(entries@, order@),
            count == order@.len(),
            i <= count,
            r@ == numbered(entries@, order@.take(i as int)),
        decreases count - i,
    {
        let e = &entries[order[i]];
        let mut line = text::number((i + 1) as u64);
        line.append(". ");
        line.append(e.report.as_str());
        line.append(" ");
        line.append(e.path.as_str());
        line.append("\n");
        r.append(line.as_str());
        proof {
            let upto = order@.take(i + 1);
            assert(upto.drop_last() == order@.take(i as int));
            assert(upto.last() == order@[i as int]);
        }
        i += 1;
    }
    assert(order@.take(i as int) == order@);
    r
}

// ---------------------------------------------------------------------------
// Laws
// ---------------------------------------------------------------------------

/// There is one order only, so the report on some entries is always the same.
pub proof fn law_order_is_unique(entries: Seq<AuditEntry>, a: Seq<usize>, b: Seq<usize>)
    requires
        entries.len() <= usize::MAX,
        is_order(entries, a),
        is_order(entries, b),
    ensures
        a == b,
{
    assert forall|i: int| 0 <= i < a.len() implies a[i] == b[i] by {
        lemma_orders_agree(entries, a, b, i);
    }
}

proof fn lemma_orders_agree(entries: Seq<AuditEntry>, a: Seq<usize>, b: Seq<usize>, i: int)
    requires
        entries.len() <= usize::MAX,
        is_order(entries, a),
        is_order(entries, b),
        0 <= i < a.len(),
    ensures
        a[i] == b[i],
    decreases i,
{
    assert forall|k: int| 0 <= k < i implies a[k] == b[k] by {
        lemma_orders_agree(entries, a, b, k);
    }
    lemma_order_names_all(entries, a, b[i]);
    lemma_order_names_all(entries, b, a[i]);
    let j = b.index_of(a[i]);
    let k = a.index_of(b[i]);
    if j < i {
        assert(comes_before(entries, a[j], a[i]));
    }
    if k < i {
        assert(comes_before(entries, b[k], b[i]));
    }
    if j > i {
        assert(comes_before(entries, b[i], b[j]));
    }
    if k > i {
        assert(comes_before(entries, a[i], a[k]));
    }
}

/// An order names every entry.
proof fn lemma_order_names_all(entries: Seq<AuditEntry>, order: Seq<usize>, x: usize)
    requires
        entries.len() <= usize::MAX,
        is_order(entries, order),
        x < entries.len(),
    ensures
        order.contains(x),
{
    let n = entries.len();
    let all = Seq::new(n, |i: int| i as usize);
    assert forall|i: int, k: int|
        0 <= i < order.len() && 0 <= k < order.len() && i != k implies order[i] != order[k] by {
        if i < k {
            assert(comes_before(entries, order[i], order[k]));
        } else {
            assert(comes_before(entries, order[k], order[i]));
        }
    }
    assert(order.no_duplicates());
    assert(all.no_duplicates());
    order.unique_seq_to_set();
    all.unique_seq_to_set();
    assert forall|v: usize| order.to_set().contains(v) implies all.to_set().contains(v) by {
        let i = order.index_of(v);
        assert(order[i] < n);
        assert(all[v as int] == v);
    }
    vstd::set_lib::lemma_subset_equality(order.to_set(), all.to_set());
    assert(all[x as int] == x);
    assert(all.to_set().contains(x));
    assert(order.to_set().contains(x));
}

/// A file is audited just where its name has something before its last dot and `ts` behind
/// it, and its path does not hold the name of the directory of dependencies.
pub proof fn law_what_is_audited(stem: Seq<char>, ext: Seq<char>, path: Seq<char>)
    requires
        stem.len() > 0,
        !ext.contains('.'),
    ensures
        audited_as(Some(stem.push('.') + ext), path) <==> ext == "ts"@ && !text::occurs_in(
            "node_modules"@,
            path,
        ),
        !audited_as(Some(ext), path),
        !audited_as(Some(seq!['.'] + ext), path),
        !audited_as(None, path),
        audited(path) <==> audited_as(paths::name_in(path), path),
{
    paths::law_extension_follows_the_last_dot(stem, ext);
}

/// An order puts no entry behind one of a higher rank, nor behind one of the same rank
/// that stands after it, and leaves none out.
pub proof fn law_order_is_by_rank(entries: Seq<AuditEntry>, order: Seq<usize>, i: int, k: int)
    requires
        is_order(entries, order),
        0 <= i < k < order.len(),
    ensures
        order.len() == entries.len(),
        entries[order[i] as int].rank <= entries[order[k] as int].rank,
        entries[order[i] as int].rank == entries[order[k] as int].rank ==> order[i] < order[k],
        order[i] != order[k],
{
    assert(comes_before(entries, order[i], order[k]));
}

/// The entries are numbered from one, each with its report and its path.
pub proof fn law_entries_are_numbered(entries: Seq<AuditEntry>, order: Seq<usize>, at: usize)
    ensures
        numbered(entries, Seq::empty()) == Seq::<char>::empty(),
        numbered(entries, order.push(at)) == numbered(entries, order) + (text::decimal(
            order.len() + 1,
        ) + ". "@ + entries[at as int].report@ + " "@ + entries[at as int].path@ + "\n"@),
{
    assert(order.push(at).drop_last() == order);
}

/// A sample is as large as asked, or takes all where there are fewer; it names files that
/// there are, and none twice.
pub proof fn law_sample_is_as_asked(sample: Seq<usize>, count: nat, amount: nat)
    requires
        is_sample(sample, count, amount),
    ensures
        amount <= count ==> sample.len() == amount,
        amount >= count ==> sample.len() == count,
        forall|i: int, k: int|
            0 <= i < k < sample.len() ==> #[trigger] sample[i] != #[trigger] sample[k],
        forall|i: int| 0 <= i < sample.len() ==> 0 <= #[trigger] sample[i] < count,
{
}

} // verus!
