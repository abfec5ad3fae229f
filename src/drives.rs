use vstd::prelude::*;

verus! {

/// The answer of the OS device-mapping facility for one drive letter.
#[derive(Debug)]
pub enum DeviceQuery {
    /// The letter maps to this device name.
    Found(String),
    /// The letter is not mapped.
    NotFound,
    /// The query failed otherwise.
    Failed,
}

/// One device-namespace volume and the drive letter that maps to it.
#[derive(Debug)]
pub struct DrivePathEntry {
    pub device_name: String,
    pub letter: char,
}

/// The drive letters probed at start-up, `c` up to and including `y`.
pub fn drive_letter_candidates() -> (r: Vec<char>)
    ensures
        r@.len() == 23,
        forall|i: int| 0 <= i < 23 ==> (#[trigger] r@[i]) as u32 == 'c' as u32 + i,
{
    let r = vec![
        'c', 'd', 'e', 'f', 'g', 'h', 'i', 'j', 'k', 'l', 'm', 'n', 'o', 'p', 'q', 'r', 's',
        't', 'u', 'v', 'w', 'x', 'y',
    ];
    assert forall|i: int| 0 <= i < 23 implies (#[trigger] r@[i]) as u32 == 'c' as u32 + i by {}
    r
}

/// Device names mapped to drive letters, built once by probing each
/// candidate letter.
pub struct DriveLetterMap {
    entries: Vec<DrivePathEntry>,
}

/// The device names of `s`, in order.
pub open spec fn entry_names(s: Seq<DrivePathEntry>) -> Seq<Seq<char>> {
    s.map_values(|e: DrivePathEntry| e.device_name@)
}

proof fn lemma_index_of_unique(s: Seq<Seq<char>>, i: int)
    requires
        s.no_duplicates(),
        0 <= i < s.len(),
    ensures
        s.contains(s[i]),
        s.index_of(s[i]) == i,
{
    assert(s.contains(s[i]));
}

impl View for DriveLetterMap {
    type V = Map<Seq<char>, char>;

    closed spec fn view(&self) -> Map<Seq<char>, char> {
        Map::new(
            |n: Seq<char>| entry_names(self.entries@).contains(n),
            |n: Seq<char>|
                self.entries@[entry_names(self.entries@).index_of(n)].letter,
        )
    }
}

impl DriveLetterMap {
    /// No device name occurs twice.
    pub closed spec fn wf(&self) -> bool {
        entry_names(self.entries@).no_duplicates()
    }

    pub fn new() -> (r: Self)
        ensures
            r.wf(),
            r@ == Map::<Seq<char>, char>::empty(),
    {
        let r = DriveLetterMap { entries: Vec::new() };
        assert(entry_names(r.entries@) =~= Seq::<Seq<char>>::empty());
        assert(r@ =~= Map::<Seq<char>, char>::empty());
        r
    }

    /// The position of the entry named `name`, if any.
    fn find(&self, name: &String) -> (r: Option<usize>)
        requires
            self.wf(),
        ensures
            match r {
                Some(i) => i < self.entries@.len() && entry_names(self.entries@).index_of(name@)
                    == i && entry_names(self.entries@).contains(name@),
                None => !entry_names(self.entries@).contains(name@),
            },
    {
        let mut i: usize = 0;
        while i < self.entries.len()
            invariant
                self.wf(),
                i <= self.entries@.len(),
                forall|j: int| 0 <= j < i ==> entry_names(self.entries@)[j] != name@,
            decreases self.entries@.len() - i,
        {
            if self.entries[i].device_name == *name {
                proof {
                    lemma_index_of_unique(entry_names(self.entries@), i as int);
                }
                return Some(i);
            }
            i = i + 1;
        }
        None
    }

    /// Records the answer for `letter`: a found device name maps to the
    /// letter from now on; the other answers change nothing. Returns whether
    /// the answer is a failure worth reporting.
    pub fn record(&mut self, letter: char, q: DeviceQuery) -> (r: bool)
        requires
            old(self).wf(),
        ensures
            final(self).wf(),
            r == (q is Failed),
            final(self)@ == (match q {
                DeviceQuery::Found(n) => old(self)@.insert(n@, letter),
                _ => old(self)@,
            }),
    {
        match q {
            DeviceQuery::Found(name) => {
                let ghost old_entries = self.entries@;
                match self.find(&name) {
                    Some(i) => {
                        let ghost n = name@;
                        self.entries.set(i, DrivePathEntry { device_name: name, letter });
                        proof {
                            assert(entry_names(self.entries@) =~= entry_names(old_entries));
                            lemma_index_of_unique(entry_names(old_entries), i as int);
                        }
                    },
                    None => {
                        let ghost n = name@;
                        self.entries.push(DrivePathEntry { device_name: name, letter });
                        proof {
                            let names = entry_names(self.entries@);
                            assert(names =~= entry_names(old_entries).push(n));
                            assert(names.no_duplicates());
                            assert forall|x: Seq<char>| entry_names(old_entries).contains(x)
                                implies names.index_of(x) == entry_names(old_entries).index_of(x) by {
                                let k = choose|k: int| 0 <= k < old_entries.len() && entry_names(old_entries)[k] == x;
                                lemma_index_of_unique(entry_names(old_entries), k);
                                lemma_index_of_unique(names, k);
                            }
                            lemma_index_of_unique(names, old_entries.len() as int);
                            assert forall|x: Seq<char>| #[trigger] names.contains(x) <==> (
                            entry_names(old_entries).contains(x) || x == n) by {
                                if names.contains(x) && x != n {
                                    let k = choose|k: int| 0 <= k < names.len() && names[k] == x;
                                    assert(entry_names(old_entries)[k] == x);
                                }
                                if entry_names(old_entries).contains(x) {
                                    let k = choose|k: int| 0 <= k < old_entries.len() && entry_names(old_entries)[k] == x;
                                    assert(names[k] == x);
                                }
                            }
                            assert forall|x: Seq<char>| entry_names(old_entries).contains(x) && x != n
                                implies self.entries@[names.index_of(x)].letter == old_entries[entry_names(old_entries).index_of(x)].letter by {
                                let k = choose|k: int| 0 <= k < old_entries.len() && entry_names(old_entries)[k] == x;
                                lemma_index_of_unique(entry_names(old_entries), k);
                                lemma_index_of_unique(names, k);
                            }
                            assert(self@ =~= old(self)@.insert(n, letter));
                        }
                    },
                }
                false
            },
            DeviceQuery::NotFound => false,
            DeviceQuery::Failed => true,
        }
    }

    /// The drive letter of device name `name`, if it was found.
    pub fn letter_for(&self, name: &String) -> (r: Option<char>)
        requires
            self.wf(),
        ensures
            match r {
                Some(c) => self@.contains_key(name@) && self@[name@] == c,
                None => !self@.contains_key(name@),
            },
    {
        match self.find(name) {
            Some(i) => Some(self.entries[i].letter),
            None => None,
        }
    }
}

} // verus!
