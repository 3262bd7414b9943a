use vstd::prelude::*;

use crate::text::{chars_of, literal, parse_u32, parse_unsigned, str_equal, string_of_range, trim, trim_in, window_is};
use crate::cpu::Cpu;

verus! {

/// The map that a list of key-value pairs stands for, a later pair
/// replacing an earlier one with the same key.
pub open spec fn assoc_map<K, V>(s: Seq<(K, V)>) -> Map<K, V>
    decreases s.len(),
{
    if s.len() == 0 {
        Map::empty()
    } else {
        assoc_map(s.drop_last()).insert(s.last().0, s.last().1)
    }
}

/// No key occurs twice in `s`.
pub open spec fn keys_distinct<K, V>(s: Seq<(K, V)>) -> bool {
    forall|i: int, j: int| 0 <= i < j < s.len() ==> s[i].0 != s[j].0
}

/// Replacing the value of the pair at `i` of a list with distinct keys
/// replaces the value of that key in its map.
proof fn lemma_assoc_map_update<K, V>(s: Seq<(K, V)>, i: int, v: V)
    requires
        keys_distinct(s),
        0 <= i < s.len(),
    ensures
        assoc_map(s.update(i, (s[i].0, v))) == assoc_map(s).insert(s[i].0, v),
    decreases s.len(),
{
    let t = s.update(i, (s[i].0, v));
    if i == s.len() - 1 {
        assert(t.drop_last() == s.drop_last());
        assert(assoc_map(t) =~= assoc_map(s).insert(s[i].0, v));
    } else {
        assert(t.drop_last() == s.drop_last().update(i, (s[i].0, v)));
        lemma_assoc_map_update(s.drop_last(), i, v);
        assert(s.last().0 != s[i].0);
        assert(assoc_map(t) =~= assoc_map(s).insert(s[i].0, v));
    }
}

/// The keys of the map that a list stands for are the keys of its pairs.
proof fn lemma_assoc_map_keys<K, V>(s: Seq<(K, V)>, k: K)
    ensures
        assoc_map(s).dom().contains(k) <==> exists|i: int| 0 <= i < s.len() && s[i].0 == k,
    decreases s.len(),
{
    if s.len() > 0 {
        lemma_assoc_map_keys(s.drop_last(), k);
        if assoc_map(s.drop_last()).dom().contains(k) {
            let i = choose|i: int| 0 <= i < s.drop_last().len() && s.drop_last()[i].0 == k;
            assert(s[i].0 == k);
        }
        if exists|i: int| 0 <= i < s.len() && s[i].0 == k {
            let i = choose|i: int| 0 <= i < s.len() && s[i].0 == k;
            if i < s.len() - 1 {
                assert(s.drop_last()[i].0 == k);
            }
        }
    }
}

/// In a list with distinct keys, the value of a key is that of its pair.
proof fn lemma_assoc_map_get<K, V>(s: Seq<(K, V)>, i: int)
    requires
        keys_distinct(s),
        0 <= i < s.len(),
    ensures
        assoc_map(s).dom().contains(s[i].0),
        assoc_map(s)[s[i].0] == s[i].1,
    decreases s.len(),
{
    if i < s.len() - 1 {
        lemma_assoc_map_get(s.drop_last(), i);
        assert(s.last().0 != s[i].0);
    }
}

/// The index of the first `c` in `s`, or the length of `s` when `s` has
/// none.
pub open spec fn first_index_of(s: Seq<char>, c: char) -> int
    decreases s.len(),
{
    if s.len() == 0 || s[0] == c {
        0
    } else {
        1 + first_index_of(s.drop_first(), c)
    }
}

proof fn lemma_first_index_of(s: Seq<char>, c: char, k: int)
    requires
        0 <= k <= s.len(),
        forall|j: int| 0 <= j < k ==> s[j] != c,
        k < s.len() ==> s[k] == c,
    ensures
        first_index_of(s, c) == k,
    decreases k,
{
    if k > 0 {
        lemma_first_index_of(s.drop_first(), c, k - 1);
    }
}

proof fn lemma_first_index_of_bounds(s: Seq<char>, c: char)
    ensures
        0 <= first_index_of(s, c) <= s.len(),
        first_index_of(s, c) < s.len() ==> s[first_index_of(s, c)] == c,
    decreases s.len(),
{
    if s.len() > 0 && s[0] != c {
        lemma_first_index_of_bounds(s.drop_first(), c);
    }
}


/// What reading `/proc/cpuinfo` line by line has gathered: the entries of
/// each processor block already closed, the number of the block being
/// read (if its `processor` line gave one), and the entries read since the
/// last block was closed.
pub struct CpuInfoScan {
    pub info: Map<u32, Map<Seq<char>, Seq<char>>>,
    pub current: Option<u32>,
    pub data: Map<Seq<char>, Seq<char>>,
}

/// Nothing read yet.
pub open spec fn scan_start() -> CpuInfoScan {
    CpuInfoScan { info: Map::empty(), current: None, data: Map::empty() }
}

/// Closes the block being read, when it has a number: its entries are
/// recorded under that number and a new, empty block begins. Without a
/// number nothing happens, and the entries read so far carry over.
pub open spec fn close_block(st: CpuInfoScan) -> CpuInfoScan {
    match st.current {
        Some(n) => CpuInfoScan { info: st.info.insert(n, st.data), current: None, data: Map::empty() },
        None => st,
    }
}

/// The processor number that the value of a `processor` line gives.
pub open spec fn processor_number(value: Seq<char>) -> Option<u32> {
    match parse_unsigned(value, u32::MAX as int) {
        Some(n) => Some(n as u32),
        None => None,
    }
}

/// Reads one line: a line with a colon is a key (before the first colon)
/// and a value (after it), both trimmed. A `processor` key closes the block
/// being read and begins the block of the number it gives; any other key
/// sets that entry of the block being read. Lines without a colon are
/// skipped.
pub open spec fn read_line(st: CpuInfoScan, line: Seq<char>) -> CpuInfoScan {
    let k = first_index_of(line, ':');
    if k < line.len() {
        let key = trim(line.take(k));
        let value = trim(line.skip(k + 1));
        if key == "processor"@ {
            CpuInfoScan { current: processor_number(value), ..close_block(st) }
        } else {
            CpuInfoScan { data: st.data.insert(key, value), ..st }
        }
    } else {
        st
    }
}

/// Reads the lines of `s`, which are separated by line feeds.
pub open spec fn read_lines(st: CpuInfoScan, s: Seq<char>) -> CpuInfoScan
    decreases s.len(),
{
    let k = first_index_of(s, '\n');
    let next = read_line(st, s.take(k));
    if 0 <= k < s.len() {
        read_lines(next, s.skip(k + 1))
    } else {
        next
    }
}

/// The entries of `/proc/cpuinfo` by processor number: what the file
/// `content` gives once every line is read and the last block is closed.
pub open spec fn cpu_info_of(content: Seq<char>) -> Map<u32, Map<Seq<char>, Seq<char>>> {
    close_block(read_lines(scan_start(), content)).info
}

/// The key-value pairs of a list of string pairs.
pub open spec fn entry_view(e: Seq<(String, String)>) -> Seq<(Seq<char>, Seq<char>)> {
    e.map_values(|p: (String, String)| (p.0@, p.1@))
}

/// The map that a list of string pairs stands for.
pub open spec fn entries_map(e: Seq<(String, String)>) -> Map<Seq<char>, Seq<char>> {
    assoc_map(entry_view(e))
}

/// The processor numbers and entry maps of a table.
pub open spec fn table_view(t: Seq<(u32, Vec<(String, String)>)>) -> Seq<(u32, Map<Seq<char>, Seq<char>>)> {
    t.map_values(|p: (u32, Vec<(String, String)>)| (p.0, entries_map(p.1@)))
}

/// The entries of `/proc/cpuinfo`, by processor number.
pub struct CpuInfo {
    pub entries: Vec<(u32, Vec<(String, String)>)>,
}

impl View for CpuInfo {
    type V = Map<u32, Map<Seq<char>, Seq<char>>>;

    open spec fn view(&self) -> Map<u32, Map<Seq<char>, Seq<char>>> {
        assoc_map(table_view(self.entries@))
    }
}

impl CpuInfo {
    /// No processor number occurs twice, and no key twice in the entries
    /// of one processor.
    pub open spec fn wf(&self) -> bool {
        &&& keys_distinct(table_view(self.entries@))
        &&& forall|i: int| 0 <= i < self.entries@.len() ==> keys_distinct(entry_view(#[trigger] self.entries@[i].1@))
    }
}

/// Sets the entry `key` of `data` to `value`.
fn set_entry(data: &mut Vec<(String, String)>, key: String, value: String)
    requires
        keys_distinct(entry_view(old(data)@)),
    ensures
        keys_distinct(entry_view(final(data)@)),
        entries_map(final(data)@) == entries_map(old(data)@).insert(key@, value@),
{
    let ghost before = entry_view(data@);
    let mut i: usize = 0;
    while i < data.len()
        invariant
            0 <= i <= data@.len(),
            entry_view(data@) == before,
            before == entry_view(old(data)@),
            keys_distinct(before),
            forall|j: int| 0 <= j < i ==> before[j].0 != key@,
        decreases data@.len() - i,
    {
        if str_equal(data[i].0.as_str(), key.as_str()) {
            proof {
                assert(before[i as int].0 == key@);
                lemma_assoc_map_update(before, i as int, value@);
            }
            data.set(i, (key, value));
            assert(entry_view(data@) =~= before.update(i as int, (before[i as int].0, value@)));
            return;
        }
        i = i + 1;
    }
    data.push((key, value));
    assert(entry_view(data@) =~= before.push((key@, value@)));
    assert(entry_view(data@).drop_last() =~= before);
}

/// Records `block` as the entries of processor `number`.
fn set_block(info: &mut Vec<(u32, Vec<(String, String)>)>, number: u32, block: Vec<(String, String)>)
    requires
        keys_distinct(table_view(old(info)@)),
        forall|i: int| 0 <= i < old(info)@.len() ==> keys_distinct(entry_view(#[trigger] old(info)@[i].1@)),
        keys_distinct(entry_view(block@)),
    ensures
        keys_distinct(table_view(final(info)@)),
        forall|i: int| 0 <= i < final(info)@.len() ==> keys_distinct(entry_view(#[trigger] final(info)@[i].1@)),
        assoc_map(table_view(final(info)@)) == assoc_map(table_view(old(info)@)).insert(number, entries_map(block@)),
{
    let ghost before = table_view(info@);
    let ghost raw = info@;
    let mut i: usize = 0;
    while i < info.len()
        invariant
            0 <= i <= info@.len(),
            info@ == raw,
            raw == old(info)@,
            table_view(info@) == before,
            keys_distinct(before),
            keys_distinct(entry_view(block@)),
            forall|j: int| 0 <= j < raw.len() ==> keys_distinct(entry_view(#[trigger] raw[j].1@)),
            forall|j: int| 0 <= j < i ==> before[j].0 != number,
        decreases info@.len() - i,
    {
        if info[i].0 == number {
            proof {
                assert(before[i as int].0 == number);
                lemma_assoc_map_update(before, i as int, entries_map(block@));
            }
            info.set(i, (number, block));
            assert(table_view(info@) =~= before.update(i as int, (before[i as int].0, entries_map(block@))));
            assert forall|j: int| 0 <= j < info@.len() implies keys_distinct(entry_view(#[trigger] info@[j].1@)) by {
                if j != i {
                    assert(info@[j] == raw[j]);
                }
            }
            return;
        }
        i = i + 1;
    }
    info.push((number, block));
    assert(table_view(info@) =~= before.push((number, entries_map(block@))));
    assert(table_view(info@).drop_last() =~= before);
    assert(table_view(info@).last() == (number, entries_map(block@)));
    assert forall|j: int| 0 <= j < info@.len() implies keys_distinct(entry_view(#[trigger] info@[j].1@)) by {
        if j < raw.len() {
            assert(info@[j] == raw[j]);
        }
    }
}

/// A table whose processor numbers and keys do not repeat.
pub open spec fn table_wf(info: Seq<(u32, Vec<(String, String)>)>) -> bool {
    &&& keys_distinct(table_view(info))
    &&& forall|i: int| 0 <= i < info.len() ==> keys_distinct(entry_view(#[trigger] info[i].1@))
}

/// The scan that a table, a block number and the block's entries stand for.
pub open spec fn scan_of(info: Seq<(u32, Vec<(String, String)>)>, current: Option<u32>, data: Seq<(String, String)>) -> CpuInfoScan {
    CpuInfoScan { info: assoc_map(table_view(info)), current, data: entries_map(data) }
}

/// Closes the block being read (see `close_block`).
fn close_current(info: &mut Vec<(u32, Vec<(String, String)>)>, current: &mut Option<u32>, data: &mut Vec<(String, String)>)
    requires
        table_wf(old(info)@),
        keys_distinct(entry_view(old(data)@)),
    ensures
        table_wf(final(info)@),
        keys_distinct(entry_view(final(data)@)),
        scan_of(final(info)@, *final(current), final(data)@) == close_block(scan_of(old(info)@, *old(current), old(data)@)),
{
    match *current {
        Some(n) => {
            let mut block: Vec<(String, String)> = Vec::new();
            std::mem::swap(&mut block, data);
            set_block(info, n, block);
            *current = None;
            assert(entry_view(data@) =~= Seq::<(Seq<char>, Seq<char>)>::empty());
            assert(entries_map(data@) =~= Map::<Seq<char>, Seq<char>>::empty());
        },
        None => {},
    }
}

/// Reads the line of `v` from `a` to `b` (see `read_line`).
fn read_line_in(
    v: &Vec<char>,
    a: usize,
    b: usize,
    info: &mut Vec<(u32, Vec<(String, String)>)>,
    current: &mut Option<u32>,
    data: &mut Vec<(String, String)>,
)
    requires
        a <= b <= v@.len(),
        table_wf(old(info)@),
        keys_distinct(entry_view(old(data)@)),
    ensures
        table_wf(final(info)@),
        keys_distinct(entry_view(final(data)@)),
        scan_of(final(info)@, *final(current), final(data)@) == read_line(
            scan_of(old(info)@, *old(current), old(data)@),
            v@.subrange(a as int, b as int),
        ),
{
    let ghost line = v@.subrange(a as int, b as int);
    let mut c = a;
    while c < b && v[c] != ':'
        invariant
            a <= c <= b <= v@.len(),
            forall|j: int| a <= j < c ==> v@[j] != ':',
        decreases b - c,
    {
        c = c + 1;
    }
    proof {
        assert forall|j: int| 0 <= j < c - a implies line[j] != ':' by {
            assert(line[j] == v@[a + j]);
        }
        if c < b {
            assert(line[c - a] == v@[c as int]);
        }
        lemma_first_index_of(line, ':', c - a);
    }
    if c == b {
        return;
    }
    assert(line.take(c - a) =~= v@.subrange(a as int, c as int));
    assert(line.skip(c - a + 1) =~= v@.subrange(c + 1, b as int));
    let (ka, kb) = trim_in(v, a, c);
    let (va, vb) = trim_in(v, c + 1, b);
    let processor = literal("processor");
    if window_is(v, ka, kb, &processor) {
        let value = string_of_range(v, va, vb);
        let number = parse_u32(value.as_str());
        close_current(info, current, data);
        *current = number;
    } else {
        let key = string_of_range(v, ka, kb);
        let value = string_of_range(v, va, vb);
        set_entry(data, key, value);
    }
}

impl CpuInfo {
    /// Reads the content of `/proc/cpuinfo`: the entries of each
    /// `processor` block, by the number that block gives.
    pub fn parse(content: &str) -> (table: CpuInfo)
        ensures
            table.wf(),
            table@ == cpu_info_of(content@),
    {
        let v = chars_of(content);
        let n = v.len();
        let mut info: Vec<(u32, Vec<(String, String)>)> = Vec::new();
        let mut current: Option<u32> = None;
        let mut data: Vec<(String, String)> = Vec::new();
        let mut a: usize = 0;
        assert(table_view(info@) =~= Seq::<(u32, Map<Seq<char>, Seq<char>>)>::empty());
        assert(entry_view(data@) =~= Seq::<(Seq<char>, Seq<char>)>::empty());
        assert(scan_of(info@, current, data@) == scan_start());
        assert(v@.skip(0) == v@);
        loop
            invariant_except_break
                read_lines(scan_of(info@, current, data@), v@.skip(a as int)) == read_lines(scan_start(), v@),
            invariant
                a <= n,
                n == v@.len(),
                v@ == content@,
                table_wf(info@),
                keys_distinct(entry_view(data@)),
            ensures
                table_wf(info@),
                keys_distinct(entry_view(data@)),
                scan_of(info@, current, data@) == read_lines(scan_start(), v@),
            decreases n - a,
        {
            let mut b = a;
            while b < n && v[b] != '\n'
                invariant
                    a <= b <= n,
                    n == v@.len(),
                    forall|j: int| a <= j < b ==> v@[j] != '\n',
                decreases n - b,
            {
                b = b + 1;
            }
            let ghost rest = v@.skip(a as int);
            proof {
                assert forall|j: int| 0 <= j < b - a implies rest[j] != '\n' by {
                    assert(rest[j] == v@[a + j]);
                }
                if b < n {
                    assert(rest[b - a] == v@[b as int]);
                }
                lemma_first_index_of(rest, '\n', b - a);
                assert(rest.take(b - a) =~= v@.subrange(a as int, b as int));
            }
            read_line_in(&v, a, b, &mut info, &mut current, &mut data);
            if b == n {
                break;
            }
            assert(rest.skip(b - a + 1) =~= v@.skip(b + 1));
            a = b + 1;
        }
        close_current(&mut info, &mut current, &mut data);
        CpuInfo { entries: info }
    }
}

/// Copies a list of string pairs.
fn copy_entries(e: &Vec<(String, String)>) -> (r: Vec<(String, String)>)
    ensures
        entry_view(r@) == entry_view(e@),
{
    let mut r: Vec<(String, String)> = Vec::new();
    let mut i: usize = 0;
    while i < e.len()
        invariant
            0 <= i <= e@.len(),
            r@.len() == i,
            entry_view(r@) == entry_view(e@).take(i as int),
        decreases e@.len() - i,
    {
        let key = e[i].0.clone();
        let value = e[i].1.clone();
        let ghost before = r@;
        r.push((key, value));
        assert(r@ == before.push((key, value)));
        assert(entry_view(r@)[i as int] == (e@[i as int].0@, e@[i as int].1@));
        assert(entry_view(r@) =~= entry_view(e@).take(i + 1));
        i = i + 1;
    }
    assert(entry_view(e@).take(e@.len() as int) == entry_view(e@));
    r
}

impl Cpu {
    /// Records the `/proc/cpuinfo` entries of this CPU: those that `table`
    /// holds under its number, if it holds any.
    pub fn scan_info(&mut self, table: &CpuInfo)
        requires
            table.wf(),
        ensures
            *final(self) == (Cpu { info: final(self).info, ..*old(self) }),
            match final(self).info {
                Some(e) => {
                    &&& table@.dom().contains(old(self).number)
                    &&& keys_distinct(entry_view(e@))
                    &&& entries_map(e@) == table@[old(self).number]
                },
                None => !table@.dom().contains(old(self).number),
            },
    {
        let ghost t = table_view(table.entries@);
        let mut i: usize = 0;
        while i < table.entries.len()
            invariant
                0 <= i <= table.entries@.len(),
                t == table_view(table.entries@),
                table.wf(),
                *self == *old(self),
                forall|j: int| 0 <= j < i ==> t[j].0 != self.number,
            decreases table.entries@.len() - i,
        {
            if table.entries[i].0 == self.number {
                proof {
                    lemma_assoc_map_get(t, i as int);
                }
                let entries = copy_entries(&table.entries[i].1);
                assert(keys_distinct(entry_view(table.entries@[i as int].1@)));
                self.info = Some(entries);
                return;
            }
            i = i + 1;
        }
        proof {
            lemma_assoc_map_keys(t, self.number);
        }
        self.info = None;
    }
}

} // verus!
