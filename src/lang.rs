//! Tables of language strings, by numeric id and by name, as the game's language files hold
//! them.
//!
//! Each table is kept in insertion order with unique keys; storing a string under a key that
//! is already there replaces the old string.
use encoding_rs::UTF_16LE;
use vstd::prelude::*;

verus! {

/// What UTF-16LE decoding makes of `b`; `None` when it holds malformed sequences.
pub uninterp spec fn utf16le_decode(b: Seq<u8>) -> Option<Seq<char>>;

/// Relies on `encoding_rs::Encoding::decode` on `UTF_16LE`: the decoded text, and whether
/// some sequence was malformed.
#[verifier::external_body]
fn decode_utf16le(bytes: &[u8]) -> (r: Option<String>)
    ensures
        utf16le_decode(bytes@) == (match r {
            Some(t) => Some(t@),
            None => None::<Seq<char>>,
        }),
{
    let (text, _encoding, failed) = UTF_16LE.decode(bytes);
    if failed {
        None
    } else {
        Some(text.into_owned())
    }
}

/// The entries of a block of a string-table resource whose first string has id `index`:
/// each entry is a little-endian count of UTF-16 code units, then those units. An empty entry
/// only moves on to the next id. `None` when an entry runs past the end of the block or an id
/// does not fit in a `u32`.
pub open spec fn pe_block(data: Seq<u8>, index: int) -> Option<Seq<(int, Seq<u8>)>>
    decreases data.len(),
{
    if data.len() == 0 {
        Some(Seq::empty())
    } else if data.len() < 2 || index > u32::MAX {
        None
    } else {
        let n = 2 * (data[0] as int + 256 * data[1] as int);
        if data.len() - 2 < n {
            None
        } else {
            match pe_block(data.skip(2 + n), index + 1) {
                Some(rest) => if n == 0 {
                    Some(rest)
                } else {
                    Some(seq![(index, data.subrange(2, 2 + n))] + rest)
                },
                None => None,
            }
        }
    }
}

proof fn lemma_pe_block_ids(data: Seq<u8>, index: int)
    requires
        pe_block(data, index) is Some,
    ensures
        forall|k: int|
            0 <= k < pe_block(data, index)->0.len() ==> index <= #[trigger] pe_block(
                data,
                index,
            )->0[k].0 <= u32::MAX,
        forall|a: int, b: int|
            0 <= a < b < pe_block(data, index)->0.len() ==> pe_block(data, index)->0[a].0
                < pe_block(data, index)->0[b].0,
    decreases data.len(),
{
    if data.len() > 0 {
        let n = 2 * (data[0] as int + 256 * data[1] as int);
        lemma_pe_block_ids(data.skip(2 + n), index + 1);
    }
}

/// Splits a block of a string-table resource into its non-empty entries.
fn pe_block_entries(data: &[u8], index: u32) -> (r: Option<Vec<(u32, Vec<u8>)>>)
    ensures
        match pe_block(data@, index as int) {
            Some(entries) => r matches Some(v) && v@.len() == entries.len() && forall|k: int|
                0 <= k < entries.len() ==> v@[k].0 as int == entries[k].0 && v@[k].1@
                    == entries[k].1,
            None => r is None,
        },
{
    let mut v: Vec<(u32, Vec<u8>)> = Vec::new();
    let ghost mut done: Seq<(int, Seq<u8>)> = Seq::empty();
    let mut pos: usize = 0;
    let mut cur: u64 = index as u64;
    let dlen = data.len();
    assert(data@.skip(0) =~= data@);
    proof {
        if pe_block(data@, index as int) is Some {
            assert(done + pe_block(data@, index as int)->0 =~= pe_block(data@, index as int)->0);
        }
    }
    while pos < data.len()
        invariant
            dlen == data@.len(),
            pos <= data@.len(),
            index <= cur <= index + pos,
            v@.len() == done.len(),
            forall|k: int|
                0 <= k < done.len() ==> v@[k].0 as int == done[k].0 && v@[k].1@ == done[k].1,
            pe_block(data@, index as int) == (match pe_block(data@.skip(pos as int), cur as int) {
                Some(rest) => Some(done + rest),
                None => None::<Seq<(int, Seq<u8>)>>,
            }),
        decreases data@.len() - pos,
    {
        let ghost tail = data@.skip(pos as int);
        if data.len() - pos < 2 || cur > 0xffff_ffff {
            return None;
        }
        let n: usize = 2 * (data[pos] as usize + 256 * data[pos + 1] as usize);
        if data.len() - pos - 2 < n {
            return None;
        }
        assert(tail[0] == data@[pos as int] && tail[1] == data@[pos + 1]);
        assert(tail.skip(2 + n) =~= data@.skip(pos + 2 + n));
        if n > 0 {
            let mut bytes: Vec<u8> = Vec::new();
            let mut k: usize = 0;
            while k < n
                invariant
                    dlen == data@.len(),
                    pos + 2 + n <= data@.len(),
                    k <= n,
                    bytes@ == data@.subrange(pos + 2, pos + 2 + k),
                decreases n - k,
            {
                bytes.push(data[pos + 2 + k]);
                k = k + 1;
                assert(bytes@ =~= data@.subrange(pos + 2, pos + 2 + k));
            }
            assert(tail.subrange(2, 2 + n as int) =~= bytes@);
            proof {
                let entry = (cur as int, bytes@);
                assert(done.push(entry) + pe_block(tail.skip(2 + n), cur + 1)->0 =~= done + (seq![
                    entry,
                ] + pe_block(tail.skip(2 + n), cur + 1)->0));
                done = done.push(entry);
            }
            v.push((cur as u32, bytes));
        }
        pos = pos + 2 + n;
        cur = cur + 1;
    }
    assert(data@.skip(pos as int) =~= Seq::<u8>::empty());
    assert(done + Seq::<(int, Seq<u8>)>::empty() =~= done);
    Some(v)
}

/// The text before and after the first `sep` in `s`; `None` when `s` holds no `sep`.
pub open spec fn split_first(s: Seq<char>, sep: char) -> Option<(Seq<char>, Seq<char>)>
    decreases s.len(),
{
    if s.len() == 0 {
        None
    } else if s[0] == sep {
        Some((Seq::empty(), s.skip(1)))
    } else {
        match split_first(s.skip(1), sep) {
            Some((a, b)) => Some((seq![s[0]] + a, b)),
            None => None,
        }
    }
}

/// Whether every character of `s` is an ASCII decimal digit.
pub open spec fn all_digits(s: Seq<char>) -> bool {
    forall|i: int| 0 <= i < s.len() ==> '0' <= #[trigger] s[i] <= '9'
}

/// The number that the decimal digits `s` spell.
pub open spec fn digits_value(s: Seq<char>) -> int
    decreases s.len(),
{
    if s.len() == 0 {
        0
    } else {
        digits_value(s.drop_last()) * 10 + (s.last() as int - '0' as int)
    }
}

/// The `u32` that `s` spells in decimal, with an optional leading `+`; `None` when `s` is
/// not such a number or the number does not fit.
pub open spec fn u32_text(s: Seq<char>) -> Option<u32> {
    let d = if s.len() > 0 && s[0] == '+' {
        s.skip(1)
    } else {
        s
    };
    if d.len() > 0 && all_digits(d) && digits_value(d) <= u32::MAX {
        Some(digits_value(d) as u32)
    } else {
        None
    }
}

/// What trimming leading and trailing white space leaves of `s`.
pub uninterp spec fn trimmed(s: Seq<char>) -> Seq<char>;

/// Whether `s` begins with `prefix`.
pub open spec fn has_prefix(s: Seq<char>, prefix: Seq<char>) -> bool {
    s.len() >= prefix.len() && s.take(prefix.len() as int) == prefix
}

/// Relies on `str::split_once` with a `char` pattern: the text before and after the first
/// occurrence of `sep`, or `None` when there is none.
#[verifier::external_body]
fn split_once_at(s: &str, sep: char) -> (r: Option<(String, String)>)
    ensures
        match split_first(s@, sep) {
            Some((a, b)) => r matches Some((x, y)) && x@ == a && y@ == b,
            None => r is None,
        },
{
    match s.split_once(sep) {
        Some((a, b)) => Some((a.to_string(), b.to_string())),
        None => None,
    }
}

/// Relies on `u32::from_str` (through `str::parse`): an optional `+`, then at least one
/// decimal digit, with a value that fits.
#[verifier::external_body]
fn parse_u32(s: &str) -> (r: Option<u32>)
    ensures
        r == u32_text(s@),
{
    s.parse::<u32>().ok()
}

/// Relies on `str::trim`: the text without leading and trailing white space.
#[verifier::external_body]
fn trim_str(s: &str) -> (r: String)
    ensures
        r@ == trimmed(s@),
{
    s.trim().to_string()
}

/// Relies on `str::starts_with` with a `&str` pattern.
#[verifier::external_body]
fn starts_with(s: &str, prefix: &str) -> (r: bool)
    ensures
        r == has_prefix(s@, prefix@),
{
    s.starts_with(prefix)
}

/// Whether every character of `s` is an ASCII decimal digit.
fn is_decimal(s: &str) -> (r: bool)
    ensures
        r == all_digits(s@),
{
    let mut ok = true;
    let ghost mut seen: Seq<char> = Seq::empty();
    for c in it: s.chars()
        invariant
            it.seq() == s@,
            seen == it.seq().take(it.index() as int),
            ok == all_digits(seen),
    {
        proof {
            assert(it.seq().take(it.index() + 1) =~= seen.push(c));
            let before = seen;
            seen = seen.push(c);
            assert(seen[before.len() as int] == c);
            assert forall|i: int| 0 <= i < before.len() implies seen[i] == before[i] by {}
            assert(all_digits(seen) <==> all_digits(before) && '0' <= c <= '9');
        }
        ok = ok && '0' <= c && c <= '9';
    }
    assert(seen =~= s@);
    ok
}

/// Whether `after` is `before` with `value` stored under the id `id`: the new entry is there,
/// and every other entry is kept.
pub open spec fn stores_numbered(
    before: Seq<(u32, String)>,
    after: Seq<(u32, String)>,
    id: u32,
    value: Seq<char>,
) -> bool {
    &&& exists|i: int| 0 <= i < after.len() && after[i].0 == id && after[i].1@ == value
    &&& forall|j: int|
        0 <= j < before.len() && before[j].0 != id ==> exists|i: int|
            0 <= i < after.len() && after[i] == before[j]
    &&& forall|i: int|
        0 <= i < after.len() && after[i].0 != id ==> exists|j: int|
            0 <= j < before.len() && after[i] == before[j]
}

/// Whether `after` is `before` with `value` stored under the name `name`: the new entry is
/// there, and every other entry is kept.
pub open spec fn stores_named(
    before: Seq<(String, String)>,
    after: Seq<(String, String)>,
    name: Seq<char>,
    value: Seq<char>,
) -> bool {
    &&& exists|i: int| 0 <= i < after.len() && after[i].0@ == name && after[i].1@ == value
    &&& forall|j: int|
        0 <= j < before.len() && before[j].0@ != name ==> exists|i: int|
            0 <= i < after.len() && after[i] == before[j]
    &&& forall|i: int|
        0 <= i < after.len() && after[i].0@ != name ==> exists|j: int|
            0 <= j < before.len() && after[i] == before[j]
}

/// The entry that a line of an INI language file holds: `id=text`, where the id is a decimal
/// number. Comment lines (starting with `;`), lines without `=` and lines whose id is not a
/// number hold none.
pub open spec fn ini_entry(line: Seq<char>) -> Option<(u32, Seq<char>)> {
    if has_prefix(line, seq![';']) {
        None
    } else {
        match split_first(line, '=') {
            Some((id, text)) => match u32_text(id) {
                Some(n) => Some((n, text)),
                None => None,
            },
            None => None,
        }
    }
}

/// The key and text of a line of an HD Edition key-value file: the trimmed line split at its
/// first space. Empty lines, comment lines (starting with `//`) and lines without a space
/// hold none.
pub open spec fn hd_entry(line: Seq<char>) -> Option<(Seq<char>, Seq<char>)> {
    let t = trimmed(line);
    if t.len() == 0 || has_prefix(t, seq!['/', '/']) {
        None
    } else {
        split_first(t, ' ')
    }
}

/// A block of a string-table resource that ends inside an entry.
#[derive(Debug, Clone, Copy, PartialEq, Eq, Structural)]
pub struct MalformedStringBlock;

/// Whether entry `k` of `entries` decodes to text that `strings` holds under its id.
pub open spec fn entry_stored(
    entries: Seq<(int, Seq<u8>)>,
    k: int,
    strings: Seq<(u32, String)>,
) -> bool {
    match utf16le_decode(entries[k].1) {
        Some(t) => exists|i: int|
            0 <= i < strings.len() && strings[i].0 as int == entries[k].0 && strings[i].1@ == t,
        None => true,
    }
}

/// Whether some entry among the first `n` of `entries` decodes and has the id `id`.
pub open spec fn decoded_id(entries: Seq<(int, Seq<u8>)>, n: int, id: u32) -> bool {
    exists|m: int| 0 <= m < n && entries[m].0 == id as int && utf16le_decode(entries[m].1) is Some
}

/// A file containing language strings.
#[derive(Debug, Clone)]
pub struct LangFile {
    strings: Vec<(u32, String)>,
    named_strings: Vec<(String, String)>,
}

impl LangFile {
    /// The numerically indexed strings, in insertion order.
    pub closed spec fn numbered(&self) -> Seq<(u32, String)> {
        self.strings@
    }

    /// The named strings, in insertion order.
    pub closed spec fn named(&self) -> Seq<(String, String)> {
        self.named_strings@
    }

    /// No id and no name occurs twice.
    pub open spec fn wf(&self) -> bool {
        &&& forall|i: int, j: int|
            0 <= i < j < self.numbered().len() ==> self.numbered()[i].0 != self.numbered()[j].0
        &&& forall|i: int, j: int|
            0 <= i < j < self.named().len() ==> self.named()[i].0@ != self.named()[j].0@
    }

    /// An empty file.
    pub fn new() -> (r: Self)
        ensures
            r.wf(),
            r.numbered().len() == 0,
            r.named().len() == 0,
    {
        LangFile { strings: Vec::new(), named_strings: Vec::new() }
    }

    /// Stores `value` under the numeric id `id`, replacing what was there.
    pub fn insert(&mut self, id: u32, value: String)
        requires
            old(self).wf(),
        ensures
            final(self).wf(),
            final(self).named() == old(self).named(),
            stores_numbered(old(self).numbered(), final(self).numbered(), id, value@),
    {
        let mut i: usize = 0;
        while i < self.strings.len()
            invariant
                self.wf(),
                *self == *old(self),
                i <= self.strings@.len(),
                forall|k: int| 0 <= k < i ==> self.strings@[k].0 != id,
            decreases self.strings@.len() - i,
        {
            if self.strings[i].0 == id {
                let ghost before = self.strings@;
                self.strings.set(i, (id, value));
                assert(forall|j: int|
                    0 <= j < before.len() && j != i ==> self.strings@[j] == before[j]);
                assert(forall|j: int| 0 <= j < before.len() ==> self.strings@[j].0 == before[j].0);
                assert(self.numbered()[i as int].0 == id && self.numbered()[i as int].1@ == value@);
                assert forall|a: int, b: int|
                    0 <= a < b < self.numbered().len() implies self.numbered()[a].0
                    != self.numbered()[b].0 by {
                    assert(before == old(self).numbered());
                    assert(old(self).numbered()[a].0 != old(self).numbered()[b].0);
                    assert(self.numbered()[a].0 == before[a].0);
                    assert(self.numbered()[b].0 == before[b].0);
                }
                assert forall|k: int|
                    0 <= k < self.numbered().len() && self.numbered()[k].0 != id implies exists|
                    j: int,
                |
                    0 <= j < old(self).numbered().len() && self.numbered()[k] == old(
                        self,
                    ).numbered()[j] by {
                    assert(self.numbered()[k] == old(self).numbered()[k]);
                }
                assert(self.named() == old(self).named());
                assert(self.wf());
                return ;
            }
            i = i + 1;
        }
        let ghost before = self.strings@;
        self.strings.push((id, value));
        assert(forall|j: int| 0 <= j < before.len() ==> self.strings@[j] == before[j]);
        assert(self.numbered()[before.len() as int].0 == id);
    }

    /// Stores `value` under the name `name`, replacing what was there.
    pub fn insert_named(&mut self, name: String, value: String)
        requires
            old(self).wf(),
        ensures
            final(self).wf(),
            final(self).numbered() == old(self).numbered(),
            stores_named(old(self).named(), final(self).named(), name@, value@),
    {
        let mut i: usize = 0;
        while i < self.named_strings.len()
            invariant
                self.wf(),
                *self == *old(self),
                i <= self.named_strings@.len(),
                forall|k: int| 0 <= k < i ==> self.named_strings@[k].0@ != name@,
            decreases self.named_strings@.len() - i,
        {
            if self.named_strings[i].0 == name {
                let ghost before = self.named_strings@;
                self.named_strings.set(i, (name, value));
                assert(forall|j: int|
                    0 <= j < before.len() && j != i ==> self.named_strings@[j] == before[j]);
                assert(forall|j: int|
                    0 <= j < before.len() ==> self.named_strings@[j].0@ == before[j].0@);
                assert(self.named()[i as int].0@ == name@ && self.named()[i as int].1@ == value@);
                assert forall|a: int, b: int|
                    0 <= a < b < self.named().len() implies self.named()[a].0@
                    != self.named()[b].0@ by {
                    assert(before == old(self).named());
                    assert(old(self).named()[a].0@ != old(self).named()[b].0@);
                    assert(self.named()[a].0@ == before[a].0@);
                    assert(self.named()[b].0@ == before[b].0@);
                }
                assert forall|k: int|
                    0 <= k < self.named().len() && self.named()[k].0@ != name@ implies exists|
                    j: int,
                |
                    0 <= j < old(self).named().len() && self.named()[k] == old(
                        self,
                    ).named()[j] by {
                    assert(self.named()[k] == old(self).named()[k]);
                }
                assert(self.numbered() == old(self).numbered());
                assert(self.wf());
                return ;
            }
            i = i + 1;
        }
        let ghost before = self.named_strings@;
        self.named_strings.push((name, value));
        assert(forall|j: int| 0 <= j < before.len() ==> self.named_strings@[j] == before[j]);
        assert(self.named()[before.len() as int].0@ == name@);
    }

    /// Get a string by its numeric index.
    pub fn get(&self, index: u32) -> (r: Option<&str>)
        requires
            self.wf(),
        ensures
            r matches Some(t) ==> exists|i: int|
                0 <= i < self.numbered().len() && self.numbered()[i].0 == index
                    && self.numbered()[i].1@ == t@,
            r is None ==> forall|i: int|
                0 <= i < self.numbered().len() ==> self.numbered()[i].0 != index,
    {
        let mut i: usize = 0;
        while i < self.strings.len()
            invariant
                i <= self.strings@.len(),
                forall|k: int| 0 <= k < i ==> self.strings@[k].0 != index,
            decreases self.strings@.len() - i,
        {
            if self.strings[i].0 == index {
                let t = self.strings[i].1.as_str();
                assert(self.numbered()[i as int] == self.strings@[i as int]);
                assert(t@ == self.strings@[i as int].1@);
                return Some(t);
            }
            i = i + 1;
        }
        None
    }

    /// Get a string by name (HD Edition only).
    pub fn get_named(&self, name: &str) -> (r: Option<&str>)
        requires
            self.wf(),
        ensures
            r matches Some(t) ==> exists|i: int|
                0 <= i < self.named().len() && self.named()[i].0@ == name@ && self.named()[i].1@
                    == t@,
            r is None ==> forall|i: int|
                0 <= i < self.named().len() ==> self.named()[i].0@ != name@,
    {
        let key = name.to_owned();
        let mut i: usize = 0;
        while i < self.named_strings.len()
            invariant
                key@ == name@,
                i <= self.named_strings@.len(),
                forall|k: int| 0 <= k < i ==> self.named_strings@[k].0@ != name@,
            decreases self.named_strings@.len() - i,
        {
            if self.named_strings[i].0 == key {
                let t = self.named_strings[i].1.as_str();
                assert(self.named()[i as int] == self.named_strings@[i as int]);
                assert(t@ == self.named_strings@[i as int].1@);
                return Some(t);
            }
            i = i + 1;
        }
        None
    }

    /// All the numerically indexed strings, in insertion order.
    pub fn iter(&self) -> (r: &[(u32, String)])
        ensures
            r@ == self.numbered(),
    {
        self.strings.as_slice()
    }

    /// All the named strings, in insertion order.
    pub fn iter_named(&self) -> (r: &[(String, String)])
        ensures
            r@ == self.named(),
    {
        self.named_strings.as_slice()
    }

    /// Takes the entry of one line of an INI language file; returns whether there was one.
    /// Lines that hold none are skipped.
    pub fn load_ini_line(&mut self, line: &str) -> (r: bool)
        requires
            old(self).wf(),
        ensures
            final(self).wf(),
            match ini_entry(line@) {
                Some((id, text)) => r && final(self).named() == old(self).named()
                    && stores_numbered(old(self).numbered(), final(self).numbered(), id, text),
                None => !r && *final(self) == *old(self),
            },
    {
        proof {
            reveal_strlit(";");
            assert(";"@ =~= seq![';']);
        }
        if starts_with(line, ";") {
            return false;
        }
        let (id, value) = match split_once_at(line, '=') {
            Some(parts) => parts,
            None => return false,
        };
        match parse_u32(id.as_str()) {
            Some(n) => {
                self.insert(n, value);
                true
            },
            None => false,
        }
    }

    /// Takes the entry of one line of an HD Edition key-value file; returns whether there was
    /// one. A key of decimal digits is a numeric id, any other key a name. Lines that hold
    /// none, and numeric ids that do not fit, are skipped.
    pub fn load_hd_line(&mut self, line: &str) -> (r: bool)
        requires
            old(self).wf(),
        ensures
            final(self).wf(),
            match hd_entry(line@) {
                Some((key, text)) => if all_digits(key) {
                    match u32_text(key) {
                        Some(n) => r && final(self).named() == old(self).named() && stores_numbered(
                            old(self).numbered(),
                            final(self).numbered(),
                            n,
                            text,
                        ),
                        None => !r && *final(self) == *old(self),
                    }
                } else {
                    r && final(self).numbered() == old(self).numbered() && stores_named(
                        old(self).named(),
                        final(self).named(),
                        key,
                        text,
                    )
                },
                None => !r && *final(self) == *old(self),
            },
    {
        proof {
            reveal_strlit("//");
            assert("//"@ =~= seq!['/', '/']);
        }
        let line = trim_str(line);
        if line.as_str().is_empty() || starts_with(line.as_str(), "//") {
            return false;
        }
        let (key, value) = match split_once_at(line.as_str(), ' ') {
            Some(parts) => parts,
            None => return false,
        };
        if is_decimal(key.as_str()) {
            match parse_u32(key.as_str()) {
                Some(n) => {
                    self.insert(n, value);
                    true
                },
                None => false,
            }
        } else {
            self.insert_named(key, value);
            true
        }
    }

    /// Takes the strings of one block of a string-table resource, whose first string has id
    /// `index`. Entries that are not valid UTF-16 are skipped; a block that ends inside an entry
    /// is refused, and then nothing is taken.
    pub fn load_pe_data(&mut self, index: u32, data: &[u8]) -> (r: Result<(), MalformedStringBlock>)
        requires
            old(self).wf(),
        ensures
            final(self).wf(),
            pe_block(data@, index as int) is None ==> r is Err && *final(self) == *old(self),
            pe_block(data@, index as int) matches Some(entries) ==> {
                &&& r is Ok
                &&& final(self).named() == old(self).named()
                &&& forall|k: int| 0 <= k < entries.len() ==> entry_stored(entries, k, final(self).numbered())
                &&& forall|j: int|
                    0 <= j < old(self).numbered().len() && !decoded_id(
                        entries,
                        entries.len() as int,
                        old(self).numbered()[j].0,
                    ) ==> exists|i: int|
                        0 <= i < final(self).numbered().len() && final(self).numbered()[i]
                            == old(self).numbered()[j]
            },
    {
        let entries = match pe_block_entries(data, index) {
            Some(v) => v,
            None => return Err(MalformedStringBlock),
        };
        let ghost blk = pe_block(data@, index as int)->0;
        proof {
            lemma_pe_block_ids(data@, index as int);
        }
        let mut k: usize = 0;
        while k < entries.len()
            invariant
                self.wf(),
                self.named() == old(self).named(),
                k <= entries@.len(),
                entries@.len() == blk.len(),
                forall|m: int|
                    0 <= m < blk.len() ==> entries@[m].0 as int == blk[m].0 && entries@[m].1@
                        == blk[m].1,
                forall|a: int, b: int| 0 <= a < b < blk.len() ==> blk[a].0 < blk[b].0,
                forall|m: int| 0 <= m < k ==> entry_stored(blk, m, self.numbered()),
                forall|j: int|
                    0 <= j < old(self).numbered().len() && !decoded_id(
                        blk,
                        k as int,
                        old(self).numbered()[j].0,
                    ) ==> exists|i: int|
                        0 <= i < self.numbered().len() && self.numbered()[i]
                            == old(self).numbered()[j],
            decreases entries@.len() - k,
        {
            let ghost before = self.numbered();
            match decode_utf16le(entries[k].1.as_slice()) {
                Some(text) => {
                    let id = entries[k].0;
                    self.insert(id, text);
                    proof {
                        assert(id as int == blk[k as int].0);
                        assert forall|m: int| 0 <= m < k + 1 implies entry_stored(
                            blk,
                            m,
                            self.numbered(),
                        ) by {
                            if m < k {
                                assert(blk[m].0 < blk[k as int].0);
                                assert(entry_stored(blk, m, before));
                                if let Some(t) = utf16le_decode(blk[m].1) {
                                    let i0 = choose|i: int|
                                        0 <= i < before.len() && before[i].0 as int == blk[m].0
                                            && before[i].1@ == t;
                                    assert(before[i0].0 != id);
                                    let i1 = choose|i: int|
                                        0 <= i < self.numbered().len() && self.numbered()[i]
                                            == before[i0];
                                    assert(self.numbered()[i1].0 as int == blk[m].0);
                                }
                            }
                        }
                        assert forall|j: int|
                            0 <= j < old(self).numbered().len() && !decoded_id(
                                blk,
                                k + 1,
                                old(self).numbered()[j].0,
                            ) implies exists|i: int|
                            0 <= i < self.numbered().len() && self.numbered()[i]
                                == old(self).numbered()[j] by {
                            assert(!decoded_id(blk, k as int, old(self).numbered()[j].0));
                            let i0 = choose|i: int|
                                0 <= i < before.len() && before[i] == old(self).numbered()[j];
                            if before[i0].0 == id {
                                assert(utf16le_decode(blk[k as int].1) is Some);
                                assert(decoded_id(blk, k + 1, old(self).numbered()[j].0));
                            }
                            let i1 = choose|i: int|
                                0 <= i < self.numbered().len() && self.numbered()[i] == before[i0];
                            assert(self.numbered()[i1] == old(self).numbered()[j]);
                        }
                    }
                },
                None => {
                    proof {
                        assert forall|j: int|
                            0 <= j < old(self).numbered().len() && !decoded_id(
                                blk,
                                k + 1,
                                old(self).numbered()[j].0,
                            ) implies !decoded_id(blk, k as int, old(self).numbered()[j].0) by {
                            if decoded_id(blk, k as int, old(self).numbered()[j].0) {
                                let m = choose|m: int|
                                    0 <= m < k && blk[m].0 == old(self).numbered()[j].0 as int
                                        && utf16le_decode(blk[m].1) is Some;
                                assert(decoded_id(blk, k + 1, old(self).numbered()[j].0));
                            }
                        }
                    }
                },
            }
            k = k + 1;
        }
        Ok(())
    }
}

} // verus!
