//! The string table: every distinct string gets one small integer identity.

use vstd::prelude::*;
use vstd::string::StringExecFns;

verus! {

/// Identity of an interned string.
#[derive(Debug, Clone, Copy, PartialEq, Eq, Hash, Structural)]
pub struct StrId(pub u32);

/// What an interner holds: the texts in the order in which they were
/// interned. The text at position `i` has the identity `first + i`.
pub struct Interned {
    pub first: nat,
    pub texts: Seq<Seq<char>>,
}

/// Number of identities there are.
pub open spec fn id_space() -> nat {
    0x1_0000_0000
}

impl Interned {
    pub open spec fn fresh() -> Interned {
        Interned { first: 0, texts: Seq::empty() }
    }

    /// No text occurs twice and every identity fits in 32 bits.
    pub open spec fn valid(self) -> bool {
        &&& self.texts.no_duplicates()
        &&& self.first + self.texts.len() <= id_space()
    }

    pub open spec fn knows(self, text: Seq<char>) -> bool {
        self.texts.contains(text)
    }

    pub open spec fn has_id(self, id: StrId) -> bool {
        self.first <= id.0 < self.first + self.texts.len()
    }

    /// The text that `id` stands for.
    pub open spec fn text(self, id: StrId) -> Seq<char> {
        self.texts[id.0 - self.first]
    }

    /// Whether a text that is not yet known can still get an identity.
    pub open spec fn has_room(self) -> bool {
        self.first + self.texts.len() < id_space()
    }

    /// The identity of `text` once it is interned.
    pub open spec fn id_of(self, text: Seq<char>) -> StrId {
        if self.knows(text) {
            StrId((self.first + self.texts.index_of(text)) as u32)
        } else {
            StrId((self.first + self.texts.len()) as u32)
        }
    }

    /// The table after `text` was interned.
    pub open spec fn with(self, text: Seq<char>) -> Interned {
        if self.knows(text) {
            self
        } else {
            Interned { first: self.first, texts: self.texts.push(text) }
        }
    }

    /// The table after all of its texts were released: the identities given
    /// so far are never given again.
    pub open spec fn released(self) -> Interned {
        Interned { first: self.first + self.texts.len(), texts: Seq::empty() }
    }
}

/// Interning keeps a valid table valid, and gives the text an identity of
/// the new table that stands for it.
pub proof fn lemma_intern_sound(table: Interned, text: Seq<char>)
    requires
        table.valid(),
        table.has_room() || table.knows(text),
    ensures
        table.with(text).valid(),
        table.with(text).has_id(table.id_of(text)),
        table.with(text).text(table.id_of(text)) == text,
        forall|id: StrId| #[trigger]
            table.has_id(id) ==> table.with(text).has_id(id) && table.with(text).text(id)
                == table.text(id),
{
    if table.knows(text) {
        let i = table.texts.index_of(text);
        assert(table.texts[i] == text);
    } else {
        let after = table.texts.push(text);
        assert forall|i: int, j: int| 0 <= i < after.len() && 0 <= j < after.len() && i != j implies after[i] != after[j] by {
            if i < table.texts.len() && j < table.texts.len() {
            } else if i < table.texts.len() {
                assert(table.texts.contains(after[i]));
            } else {
                assert(table.texts.contains(after[j]));
            }
        }
    }
}

/// Interning the same text twice gives the same identity and changes nothing
/// the second time; the identity stands for the text.
pub proof fn lemma_intern_idempotent(table: Interned, text: Seq<char>)
    requires
        table.valid(),
        table.has_room() || table.knows(text),
    ensures
        table.with(text).id_of(text) == table.id_of(text),
        table.with(text).with(text) == table.with(text),
        table.with(text).text(table.id_of(text)) == text,
{
    lemma_intern_sound(table, text);
    let once = table.with(text);
    if table.knows(text) {
    } else {
        let last = table.texts.len() as int;
        assert(once.texts[last] == text);
        assert(once.texts.contains(text));
        let i = once.texts.index_of(text);
        assert(once.texts[i] == text);
        assert(i == last);
    }
}

/// Two texts have the same identity only if they are the same text.
pub proof fn lemma_intern_injective(table: Interned, a: Seq<char>, b: Seq<char>)
    requires
        table.valid(),
        table.knows(a),
        table.knows(b),
        table.id_of(a) == table.id_of(b),
    ensures
        a == b,
{
    let i = table.texts.index_of(a);
    let j = table.texts.index_of(b);
    assert(table.texts[i] == a);
    assert(table.texts[j] == b);
}

pub struct Interner {
    strings: Vec<String>,
    first: u64,
}

impl View for Interner {
    type V = Interned;

    closed spec fn view(&self) -> Interned {
        Interned { first: self.first as nat, texts: Seq::new(self.strings@.len(), |i: int| self.strings@[i]@) }
    }
}

impl Interner {
    pub fn new() -> (interner: Interner)
        ensures
            interner@ == Interned::fresh(),
            interner@.valid(),
    {
        let interner = Interner { strings: Vec::new(), first: 0 };
        assert(interner@.texts =~= Seq::empty());
        interner
    }

    fn find(&self, name: &str) -> (found: Option<usize>)
        requires
            self@.valid(),
        ensures
            found is Some == self@.knows(name@),
            found is Some ==> found->0 == self@.texts.index_of(name@) && found->0 < self@.texts.len(),
    {
        let wanted = String::from_str(name);
        let mut i: usize = 0;
        while i < self.strings.len()
            invariant
                i <= self.strings@.len(),
                wanted@ == name@,
                self@.valid(),
                forall|j: int| 0 <= j < i ==> self@.texts[j] != name@,
            decreases self.strings@.len() - i,
        {
            if self.strings[i] == wanted {
                proof {
                    assert(self@.texts[i as int] == name@);
                    assert(self@.texts.contains(name@));
                    let k = self@.texts.index_of(name@);
                    assert(0 <= k < self@.texts.len() && self@.texts[k] == name@);
                    assert(k == i);
                }
                return Some(i);
            }
            i += 1;
        }
        assert(!self@.texts.contains(name@));
        None
    }

    /// The identity of `name`, where it has one.
    pub fn id_of(&self, name: &str) -> (id: Option<StrId>)
        requires
            self@.valid(),
        ensures
            id is Some == self@.knows(name@),
            id is Some ==> id->0 == self@.id_of(name@) && self@.has_id(id->0),
    {
        match self.find(name) {
            Some(i) => Some(StrId((self.first + i as u64) as u32)),
            None => None,
        }
    }

    /// Whether `name` has an identity.
    pub fn knows(&self, name: &str) -> (known: bool)
        requires
            self@.valid(),
        ensures
            known == self@.knows(name@),
    {
        self.find(name).is_some()
    }

    /// Whether a new string can still get an identity.
    pub fn has_room(&self) -> (room: bool)
        requires
            self@.valid(),
        ensures
            room == self@.has_room(),
    {
        self.first + (self.strings.len() as u64) < 0x1_0000_0000
    }

    /// The identity of `name`, which is interned if it was not.
    pub fn intern(&mut self, name: &str) -> (id: StrId)
        requires
            old(self)@.valid(),
            old(self)@.has_room() || old(self)@.knows(name@),
        ensures
            final(self)@ == old(self)@.with(name@),
            id == old(self)@.id_of(name@),
            final(self)@.valid(),
    {
        proof {
            lemma_intern_sound(self@, name@);
        }
        if let Some(i) = self.find(name) {
            return StrId((self.first + i as u64) as u32);
        }
        let id = self.get_next_idx();
        let string = String::from_str(name);
        let ghost before = self@;
        self.strings.push(string);
        assert(self@.texts =~= before.texts.push(name@));
        StrId(id as u32)
    }

    /// The identity of `name`, which is interned if it was not; none where
    /// `name` is new and every identity is taken.
    pub fn try_intern(&mut self, name: &str) -> (id: Option<StrId>)
        requires
            old(self)@.valid(),
        ensures
            id is Some == (old(self)@.has_room() || old(self)@.knows(name@)),
            id is Some ==> final(self)@ == old(self)@.with(name@) && id->0 == old(self)@.id_of(name@),
            id is None ==> final(self)@ == old(self)@,
            final(self)@.valid(),
    {
        if self.has_room() || self.knows(name) {
            Some(self.intern(name))
        } else {
            None
        }
    }

    /// Whether `str_id` stands for a string of this interner.
    pub fn has_id(&self, str_id: StrId) -> (known: bool)
        ensures
            known == self@.has_id(str_id),
    {
        let id: u64 = str_id.0 as u64;
        self.first <= id && id - self.first < self.strings.len() as u64
    }

    pub fn lookup(&self, str_id: StrId) -> (text: &str)
        requires
            self@.has_id(str_id),
        ensures
            text@ == self@.text(str_id),
    {
        let id: u64 = str_id.0 as u64;
        self.strings[(id - self.first) as usize].as_str()
    }

    /// Releases every string. Their identities are not given again.
    pub fn free(&mut self)
        requires
            old(self)@.valid(),
        ensures
            final(self)@ == old(self)@.released(),
            final(self)@.valid(),
    {
        let count: u64 = self.strings.len() as u64;
        self.strings.clear();
        self.first = self.first + count;
        assert(self@.texts =~= Seq::empty());
    }

    fn get_next_idx(&self) -> (idx: u64)
        requires
            self@.valid(),
            self@.has_room(),
        ensures
            idx == self@.first + self@.texts.len(),
    {
        self.first + self.strings.len() as u64
    }
}

} // verus!
