//! The table of named process entry points: the boot code registers each
//! function under a name, and the shell's `addproc` looks names up in it.
use vstd::prelude::*;

verus! {

/// Number of slots of the table.
pub const TABLE_CAPACITY: usize = 10;

/// A process entry point registered under a name.
#[derive(Clone, Copy)]
pub struct ProcessIdentifier {
    pub name: &'static str,
    pub base_address: usize,
}

/// Builder handed out by `ProcessIdentifier::saver`; each `add` registers
/// one entry point.
pub struct ProcessSaver;

/// The registered entry points, in registration order (the filled slots of
/// the table; the remaining slots are empty).
pub struct FunctionTable {
    entries: Vec<ProcessIdentifier>,
}

/// A registered entry, as (name, address).
pub open spec fn entry_view(p: ProcessIdentifier) -> (Seq<char>, usize) {
    (p.name@, p.base_address)
}

/// The address of the first entry named `name`, if any.
pub open spec fn first_match(entries: Seq<(Seq<char>, usize)>, name: Seq<char>) -> Option<usize>
    decreases entries.len(),
{
    if entries.len() == 0 {
        None
    } else if entries[0].0 == name {
        Some(entries[0].1)
    } else {
        first_match(entries.drop_first(), name)
    }
}

/// Whether some entry is named `name`.
pub open spec fn is_registered(entries: Seq<(Seq<char>, usize)>, name: Seq<char>) -> bool {
    exists|k: int| 0 <= k < entries.len() && #[trigger] entries[k].0 == name
}

proof fn lemma_first_match(entries: Seq<(Seq<char>, usize)>, name: Seq<char>, k: int)
    requires
        0 <= k <= entries.len(),
        forall|j: int| 0 <= j < k ==> #[trigger] entries[j].0 != name,
    ensures
        first_match(entries, name) == first_match(entries.subrange(k, entries.len() as int), name),
    decreases k,
{
    if k > 0 {
        lemma_first_match(entries, name, k - 1);
        let tail = entries.subrange(k - 1, entries.len() as int);
        assert(tail[0] == entries[k - 1]);
        assert(tail.drop_first() =~= entries.subrange(k, entries.len() as int));
    } else {
        assert(entries.subrange(0, entries.len() as int) =~= entries);
    }
}

proof fn lemma_no_match(entries: Seq<(Seq<char>, usize)>, name: Seq<char>)
    requires
        !is_registered(entries, name),
    ensures
        first_match(entries, name) is None,
    decreases entries.len(),
{
    if entries.len() > 0 {
        assert(entries[0].0 != name);
        assert forall|k: int| 0 <= k < entries.drop_first().len() implies #[trigger] entries.drop_first()[k].0
            != name by {
            assert(entries.drop_first()[k] == entries[k + 1]);
        }
        lemma_no_match(entries.drop_first(), name);
    }
}

/// Whether the text of `s` equals the characters `cs`.
pub(crate) fn str_equals(s: &str, cs: &[char]) -> (r: bool)
    ensures
        r == (s@ == cs@),
{
    let n = s.unicode_len();
    if n != cs.len() {
        return false;
    }
    let mut i: usize = 0;
    while i < n
        invariant
            n == s@.len(),
            n == cs@.len(),
            i <= n,
            forall|j: int| 0 <= j < i ==> s@[j] == cs@[j],
        decreases n - i,
    {
        if s.get_char(i) != cs[i] {
            return false;
        }
        i = i + 1;
    }
    proof {
        assert(s@ =~= cs@);
    }
    true
}

impl FunctionTable {
    /// The registered entries, in order.
    pub closed spec fn view(&self) -> Seq<(Seq<char>, usize)> {
        self.entries@.map_values(|p: ProcessIdentifier| entry_view(p))
    }

    pub closed spec fn wf(&self) -> bool {
        self.entries@.len() <= TABLE_CAPACITY
    }

    /// An empty table.
    pub fn new() -> (t: FunctionTable)
        ensures
            t.wf(),
            t@ == Seq::<(Seq<char>, usize)>::empty(),
    {
        let t = FunctionTable { entries: Vec::new() };
        proof {
            assert(t@ =~= Seq::<(Seq<char>, usize)>::empty());
        }
        t
    }

    /// Whether an entry is named `name`.
    pub fn contains(&self, name: &[char]) -> (r: bool)
        requires
            self.wf(),
        ensures
            r == is_registered(self@, name@),
    {
        let n = self.entries.len();
        let mut k: usize = 0;
        while k < n
            invariant
                self.wf(),
                n == self@.len(),
                k <= n,
                forall|j: int| 0 <= j < k ==> #[trigger] self@[j].0 != name@,
            decreases n - k,
        {
            let entry = self.entries[k];
            proof {
                assert(self@[k as int] == entry_view(entry));
            }
            if str_equals(entry.name, name) {
                assert(self@[k as int].0 == name@);
                return true;
            }
            k = k + 1;
        }
        false
    }

    /// Number of registered entries.
    pub fn len(&self) -> (n: usize)
        requires
            self.wf(),
        ensures
            n == self@.len(),
            n <= TABLE_CAPACITY,
    {
        self.entries.len()
    }
}

impl ProcessIdentifier {
    /// The builder that registers entry points.
    pub fn saver() -> ProcessSaver {
        ProcessSaver
    }

    /// The address registered under `name`. The table's slots are scanned in
    /// order; the first entry with that name gives the address. When no
    /// entry has the name, the result is `None` if every slot is filled; with
    /// a free slot left the scan reaches it and panics, so that case is
    /// excluded.
    pub fn retrieve_base_address(table: &FunctionTable, name: &[char]) -> (r: Option<usize>)
        requires
            table.wf(),
            is_registered(table@, name@) || table@.len() == TABLE_CAPACITY,
        ensures
            r == first_match(table@, name@),
            r is Some <==> is_registered(table@, name@),
    {
        let n = table.entries.len();
        let mut k: usize = 0;
        while k < n
            invariant
                table.wf(),
                n == table@.len(),
                k <= n,
                forall|j: int| 0 <= j < k ==> #[trigger] table@[j].0 != name@,
            decreases n - k,
        {
            let entry = table.entries[k];
            proof {
                assert(table@[k as int] == entry_view(entry));
            }
            if str_equals(entry.name, name) {
                proof {
                    lemma_first_match(table@, name@, k as int);
                    let tail = table@.subrange(k as int, n as int);
                    assert(tail[0] == table@[k as int]);
                }
                return Some(entry.base_address);
            }
            k = k + 1;
        }
        proof {
            assert(!is_registered(table@, name@));
            lemma_no_match(table@, name@);
        }
        None
    }

    /// Fills the next slot with `name` and `base_address`; the table must
    /// have a free slot (the firmware panics otherwise).
    pub(crate) fn register_user_process(
        table: &mut FunctionTable,
        name: &'static str,
        base_address: usize,
    )
        requires
            old(table).wf(),
            old(table)@.len() < TABLE_CAPACITY,
        ensures
            final(table).wf(),
            final(table)@ == old(table)@.push((name@, base_address)),
    {
        table.entries.push(ProcessIdentifier { name, base_address });
        proof {
            assert(table@ =~= old(table)@.push((name@, base_address)));
        }
    }
}

impl ProcessSaver {
    /// Registers `base_address` under `name` and hands the builder back.
    pub fn add(&self, table: &mut FunctionTable, name: &'static str, base_address: usize) -> (s:
        ProcessSaver)
        requires
            old(table).wf(),
            old(table)@.len() < TABLE_CAPACITY,
        ensures
            final(table).wf(),
            final(table)@ == old(table)@.push((name@, base_address)),
    {
        ProcessIdentifier::register_user_process(table, name, base_address);
        ProcessSaver
    }
}

/// A name registered once is found again by `retrieve_base_address`, with
/// the address it was first registered under, whatever was registered
/// after it.
pub proof fn registered_name_is_found(
    entries: Seq<(Seq<char>, usize)>,
    name: Seq<char>,
    addr: usize,
    later: Seq<(Seq<char>, usize)>,
)
    requires
        !is_registered(entries, name),
    ensures
        first_match(entries.push((name, addr)) + later, name) == Some(addr),
{
    let all = entries.push((name, addr)) + later;
    let k = entries.len() as int;
    assert forall|j: int| 0 <= j < k implies #[trigger] all[j].0 != name by {
        assert(all[j] == entries[j]);
    }
    lemma_first_match(all, name, k);
    let tail = all.subrange(k, all.len() as int);
    assert(tail[0] == (name, addr));
}

} // verus!
