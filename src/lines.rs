use vstd::prelude::*;

verus! {

/// One row of a line program as the debug information states it.
#[derive(Debug, Clone)]
pub struct LineRow {
    pub address: u64,
    pub directory: Option<String>,
    pub file: String,
    pub line: u64,
    /// The row only marks the end of a sequence and maps no address.
    pub end_sequence: bool,
}

/// A source position: a file path and a line.
#[derive(Debug, Clone)]
pub struct SourceLine {
    pub address: u64,
    pub file: String,
    pub line: u64,
}

/// The path of a row's file: its directory, when there is a non-empty one, then `/`, then the file name.
pub open spec fn row_path(r: LineRow) -> Seq<char> {
    match r.directory {
        Some(d) => if d@.len() > 0 {
            d@ + seq!['/'] + r.file@
        } else {
            r.file@
        },
        None => r.file@,
    }
}

/// The mapping that a sequence of rows gives, later rows overwriting earlier ones; rows that
/// end a sequence are skipped.
pub open spec fn rows_map(rows: Seq<LineRow>) -> Map<u64, (Seq<char>, u64)>
    decreases rows.len(),
{
    if rows.len() == 0 {
        Map::empty()
    } else if rows.last().end_sequence {
        rows_map(rows.drop_last())
    } else {
        rows_map(rows.drop_last()).insert(
            rows.last().address,
            (row_path(rows.last()), rows.last().line),
        )
    }
}

/// Maps code addresses to source positions; at most one position per address.
pub struct LineTable {
    entries: Vec<SourceLine>,
}

impl LineTable {
    /// The stored positions, in the order their addresses were first seen.
    pub closed spec fn rows(&self) -> Seq<SourceLine> {
        self.entries@
    }

    /// No address appears twice.
    pub open spec fn wf(&self) -> bool {
        forall|i: int, j: int|
            0 <= i < self.rows().len() && 0 <= j < self.rows().len() && i != j ==> #[trigger] self.rows()[i].address
                != #[trigger] self.rows()[j].address
    }

    /// The table as a map from address to (file path, line).
    pub open spec fn view(&self) -> Map<u64, (Seq<char>, u64)> {
        Map::new(
            |a: u64| exists|i: int| 0 <= i < self.rows().len() && #[trigger] self.rows()[i].address == a,
            |a: u64|
                {
                    let i = choose|i: int|
                        0 <= i < self.rows().len() && #[trigger] self.rows()[i].address == a;
                    (self.rows()[i].file@, self.rows()[i].line)
                },
        )
    }

    pub fn new() -> (r: Self)
        ensures
            r.wf(),
            r@ == Map::<u64, (Seq<char>, u64)>::empty(),
    {
        let r = LineTable { entries: Vec::new() };
        proof {
            assert(r@ =~= Map::<u64, (Seq<char>, u64)>::empty());
        }
        r
    }

    /// The index of the row for `address`.
    fn position(&self, address: u64) -> (r: Option<usize>)
        ensures
            match r {
                Some(i) => i < self.rows().len() && self.rows()[i as int].address == address,
                None => forall|i: int|
                    0 <= i < self.rows().len() ==> #[trigger] self.rows()[i].address != address,
            },
    {
        let mut i: usize = 0;
        while i < self.entries.len()
            invariant
                i <= self.entries@.len(),
                forall|k: int| 0 <= k < i ==> #[trigger] self.entries@[k].address != address,
            decreases self.entries@.len() - i,
        {
            if self.entries[i].address == address {
                return Some(i);
            }
            i = i + 1;
        }
        None
    }

    /// Records `address -> (file, line)`, replacing an earlier position for the same address.
    pub fn insert(&mut self, address: u64, file: String, line: u64)
        requires
            old(self).wf(),
        ensures
            final(self).wf(),
            final(self)@ == old(self)@.insert(address, (file@, line)),
    {
        let ghost f = file@;
        match self.position(address) {
            Some(i) => {
                self.entries.set(i, SourceLine { address, file, line });
                proof {
                    assert(self.rows()[i as int].address == address);
                    assert forall|a: u64| #[trigger] self@.contains_key(a) == old(self)@.insert(
                        address,
                        (f, line),
                    ).contains_key(a) by {
                        if old(self)@.contains_key(a) && a != address {
                            let k = choose|k: int|
                                0 <= k < old(self).rows().len() && #[trigger] old(self).rows()[k].address == a;
                            assert(self.rows()[k].address == a);
                        }
                    }
                    assert forall|a: u64| #[trigger] self@.contains_key(a) implies self@[a]
                        == old(self)@.insert(address, (f, line))[a] by {
                        let k = choose|k: int|
                            0 <= k < self.rows().len() && #[trigger] self.rows()[k].address == a;
                        if a == address {
                            assert(k == i);
                        } else {
                            assert(old(self).rows()[k].address == a);
                            let k2 = choose|k2: int|
                                0 <= k2 < old(self).rows().len() && #[trigger] old(self).rows()[k2].address == a;
                            assert(k2 == k);
                        }
                    }
                    assert(self@ =~= old(self)@.insert(address, (f, line)));
                }
            },
            None => {
                self.entries.push(SourceLine { address, file, line });
                proof {
                    let n = old(self).rows().len();
                    assert(self.rows()[n as int].address == address);
                    assert forall|a: u64| #[trigger] self@.contains_key(a) == old(self)@.insert(
                        address,
                        (f, line),
                    ).contains_key(a) by {
                        if old(self)@.contains_key(a) {
                            let k = choose|k: int|
                                0 <= k < old(self).rows().len() && #[trigger] old(self).rows()[k].address == a;
                            assert(self.rows()[k].address == a);
                        }
                        if self@.contains_key(a) && a != address {
                            let k = choose|k: int|
                                0 <= k < self.rows().len() && #[trigger] self.rows()[k].address == a;
                            assert(k < n);
                            assert(old(self).rows()[k].address == a);
                        }
                    }
                    assert forall|a: u64| #[trigger] self@.contains_key(a) implies self@[a]
                        == old(self)@.insert(address, (f, line))[a] by {
                        let k = choose|k: int|
                            0 <= k < self.rows().len() && #[trigger] self.rows()[k].address == a;
                        if a == address {
                            assert(k == n);
                        } else {
                            assert(k < n);
                            assert(old(self).rows()[k].address == a);
                            let k2 = choose|k2: int|
                                0 <= k2 < old(self).rows().len() && #[trigger] old(self).rows()[k2].address == a;
                            assert(k2 == k);
                        }
                    }
                    assert(self@ =~= old(self)@.insert(address, (f, line)));
                }
            },
        }
    }

    /// The source position recorded for `address`.
    pub fn lookup(&self, address: u64) -> (r: Option<(String, u64)>)
        requires
            self.wf(),
        ensures
            match r {
                Some((file, line)) => self@.contains_key(address) && self@[address] == (file@, line),
                None => !self@.contains_key(address),
            },
    {
        match self.position(address) {
            Some(i) => {
                let e = &self.entries[i];
                proof {
                    assert(self@.contains_key(address));
                    let k = choose|k: int|
                        0 <= k < self.rows().len() && #[trigger] self.rows()[k].address == address;
                    assert(k == i);
                }
                Some((e.file.clone(), e.line))
            },
            None => None,
        }
    }

    /// Builds the table from line-program rows in traversal order.
    pub fn from_rows(rows: &Vec<LineRow>) -> (r: Self)
        ensures
            r.wf(),
            r@ == rows_map(rows@),
    {
        let mut t = LineTable::new();
        let mut i: usize = 0;
        while i < rows.len()
            invariant
                i <= rows@.len(),
                t.wf(),
                t@ == rows_map(rows@.subrange(0, i as int)),
            decreases rows@.len() - i,
        {
            let row = &rows[i];
            if !row.end_sequence {
                let path = join_path(row);
                t.insert(row.address, path, row.line);
            }
            proof {
                assert(rows@.subrange(0, i + 1).drop_last() =~= rows@.subrange(0, i as int));
            }
            i = i + 1;
        }
        proof {
            assert(rows@.subrange(0, rows@.len() as int) =~= rows@);
        }
        t
    }
}

/// The path of a row's file.
pub fn join_path(row: &LineRow) -> (r: String)
    ensures
        r@ == row_path(*row),
{
    match &row.directory {
        Some(d) => {
            if d.as_str().is_empty() {
                row.file.clone()
            } else {
                let mut p = d.clone();
                proof {
                    reveal_strlit("/");
                }
                p.append("/");
                p.append(row.file.as_str());
                p
            }
        },
        None => row.file.clone(),
    }
}

/// The line table is a partial function: two stored rows with the same address are the same row,
/// so an address has at most one (file, line).
pub proof fn lemma_line_table_functional(t: LineTable, i: int, j: int)
    requires
        t.wf(),
        0 <= i < t.rows().len(),
        0 <= j < t.rows().len(),
        t.rows()[i].address == t.rows()[j].address,
    ensures
        i == j,
        t@[t.rows()[i].address] == (t.rows()[i].file@, t.rows()[i].line),
{
    let a = t.rows()[i].address;
    assert(t@.contains_key(a));
    let k = choose|k: int| 0 <= k < t.rows().len() && #[trigger] t.rows()[k].address == a;
    assert(k == i);
}

} // verus!
