//! The RC4 stream cipher.

use vstd::prelude::*;
use crate::transform::{lemma_pad_round_trip, xor_with_pad};

verus! {

/// Number of entries of the cipher's table.
pub const TABLE_SIZE: usize = 256;

/// The cipher's state as a mathematical value: a table of 256 bytes and two
/// cursors into it.
pub struct Rc4State {
    pub table: Seq<u8>,
    pub i: u8,
    pub j: u8,
}

/// Sum of two bytes modulo 256.
pub open spec fn add_mod(a: u8, b: u8) -> u8 {
    ((a + b) % 256) as u8
}

/// `table` with the entries at `a` and `b` exchanged.
pub open spec fn swapped(table: Seq<u8>, a: int, b: int) -> Seq<u8> {
    table.update(a, table[b]).update(b, table[a])
}

/// The table that key scheduling starts from: entry `k` holds `k`.
pub open spec fn identity_table() -> Seq<u8> {
    Seq::new(TABLE_SIZE as nat, |k: int| k as u8)
}

/// The table and the cursor `j` after the first `rounds` rounds of key
/// scheduling. Round `i` adds entry `i` and key byte `i mod len(key)` to `j`
/// modulo 256, then exchanges entries `i` and `j`.
pub open spec fn schedule(key: Seq<u8>, rounds: nat) -> (Seq<u8>, u8)
    recommends
        key.len() > 0,
        rounds <= TABLE_SIZE,
    decreases rounds,
{
    if rounds == 0 {
        (identity_table(), 0u8)
    } else {
        let (table, j) = schedule(key, (rounds - 1) as nat);
        let i = rounds - 1;
        let j = add_mod(add_mod(j, table[i]), key[i % (key.len() as int)]);
        (swapped(table, i, j as int), j)
    }
}

/// The state of a cipher freshly keyed with `key`.
pub open spec fn initial_state(key: Seq<u8>) -> Rc4State
    recommends
        key.len() > 0,
{
    Rc4State { table: schedule(key, TABLE_SIZE as nat).0, i: 0, j: 0 }
}

/// The state after producing one more pad byte.
pub open spec fn step(st: Rc4State) -> Rc4State {
    let i = add_mod(st.i, 1);
    let j = add_mod(st.j, st.table[i as int]);
    Rc4State { table: swapped(st.table, i as int, j as int), i, j }
}

/// The pad byte that a state reached by `step` gives out.
pub open spec fn pad_byte(st: Rc4State) -> u8 {
    st.table[add_mod(st.table[st.i as int], st.table[st.j as int]) as int]
}

/// The state after `n` steps from `st`.
pub open spec fn advance(st: Rc4State, n: nat) -> Rc4State
    decreases n,
{
    if n == 0 {
        st
    } else {
        step(advance(st, (n - 1) as nat))
    }
}

/// The first `n` pad bytes produced from `st`.
pub open spec fn keystream(st: Rc4State, n: nat) -> Seq<u8> {
    Seq::new(n, |k: int| pad_byte(advance(st, (k + 1) as nat)))
}

/// `data` XORed with the keystream of a cipher freshly keyed with `key`.
pub open spec fn rc4_spec(data: Seq<u8>, key: Seq<u8>) -> Seq<u8>
    recommends
        key.len() > 0,
{
    xor_with_pad(data, keystream(initial_state(key), data.len()))
}

/// Whether a state's table is a permutation of the 256 byte values: it has
/// 256 entries and no value stands in it twice.
pub open spec fn well_formed(st: Rc4State) -> bool {
    &&& st.table.len() == TABLE_SIZE
    &&& forall|a: int, b: int| 0 <= a < b < TABLE_SIZE ==> st.table[a] != st.table[b]
}

/// Exchanging two entries of a permutation leaves a permutation.
proof fn lemma_swap_keeps_permutation(st: Rc4State, a: int, b: int)
    requires
        well_formed(st),
        0 <= a < TABLE_SIZE,
        0 <= b < TABLE_SIZE,
    ensures
        well_formed(Rc4State { table: swapped(st.table, a, b), i: st.i, j: st.j }),
{
    let after = swapped(st.table, a, b);
    assert forall|x: int, y: int| 0 <= x < y < TABLE_SIZE implies after[x] != after[y] by {
        let from_x = if x == a {
            b
        } else if x == b {
            a
        } else {
            x
        };
        let from_y = if y == a {
            b
        } else if y == b {
            a
        } else {
            y
        };
        assert(after[x] == st.table[from_x]);
        assert(after[y] == st.table[from_y]);
        assert(from_x != from_y);
        if from_x < from_y {
            assert(st.table[from_x] != st.table[from_y]);
        } else {
            assert(st.table[from_y] != st.table[from_x]);
        }
    }
}

/// Key scheduling yields a permutation after every round.
pub proof fn lemma_schedule_well_formed(key: Seq<u8>, rounds: nat)
    requires
        key.len() > 0,
        rounds <= TABLE_SIZE,
    ensures
        well_formed(Rc4State { table: schedule(key, rounds).0, i: 0, j: 0 }),
    decreases rounds,
{
    if rounds > 0 {
        lemma_schedule_well_formed(key, (rounds - 1) as nat);
        let (table, j) = schedule(key, (rounds - 1) as nat);
        let i = rounds - 1;
        let j = add_mod(add_mod(j, table[i]), key[i % (key.len() as int)]);
        lemma_swap_keeps_permutation(Rc4State { table, i: 0, j: 0 }, i, j as int);
    }
}

/// Producing pad bytes keeps the table a permutation.
pub proof fn lemma_advance_well_formed(st: Rc4State, n: nat)
    requires
        well_formed(st),
    ensures
        well_formed(advance(st, n)),
    decreases n,
{
    if n > 0 {
        lemma_advance_well_formed(st, (n - 1) as nat);
        let before = advance(st, (n - 1) as nat);
        let i = add_mod(before.i, 1);
        let j = add_mod(before.j, before.table[i as int]);
        lemma_swap_keeps_permutation(before, i as int, j as int);
    }
}

/// Exchanges two entries of a table.
fn swap_entries(table: &mut [u8; 256], a: usize, b: usize)
    requires
        a < TABLE_SIZE,
        b < TABLE_SIZE,
    ensures
        final(table)@ == swapped(old(table)@, a as int, b as int),
{
    let t: u8 = table[a];
    table[a] = table[b];
    table[b] = t;
    assert(table@ =~= swapped(old(table)@, a as int, b as int));
}

/// A running RC4 cipher.
pub struct RC4 {
    s: [u8; 256],
    i: u8,
    j: u8,
}

impl View for RC4 {
    type V = Rc4State;

    closed spec fn view(&self) -> Rc4State {
        Rc4State { table: self.s@, i: self.i, j: self.j }
    }
}

impl RC4 {
    /// Keys a new cipher by running the key schedule over `key`.
    pub fn new(key: &[u8]) -> (cipher: RC4)
        requires
            key@.len() > 0,
        ensures
            cipher@ == initial_state(key@),
            well_formed(cipher@),
    {
        let mut s: [u8; 256] = [0u8; 256];
        let mut n: usize = 0;
        while n < 256
            invariant
                n <= 256,
                forall|k: int| 0 <= k < n ==> s@[k] == k as u8,
            decreases 256 - n,
        {
            s[n] = n as u8;
            n = n + 1;
        }
        assert(s@ =~= identity_table());
        let mut j: u8 = 0;
        let mut i: usize = 0;
        while i < 256
            invariant
                key@.len() > 0,
                i <= 256,
                s@ == schedule(key@, i as nat).0,
                j == schedule(key@, i as nat).1,
            decreases 256 - i,
        {
            let ghost table = s@;
            let ghost j_before = j;
            j = j.wrapping_add(s[i]).wrapping_add(key[i % key.len()]);
            assert(j == add_mod(
                add_mod(j_before, table[i as int]),
                key@[(i as int) % (key@.len() as int)],
            ));
            swap_entries(&mut s, i, j as usize);
            assert(schedule(key@, (i + 1) as nat) == (swapped(table, i as int, j as int), j));
            i = i + 1;
        }
        proof {
            lemma_schedule_well_formed(key@, TABLE_SIZE as nat);
        }
        RC4 { s, i: 0, j: 0 }
    }

    /// Moves the cipher one step on and gives out the pad byte of the state
    /// reached.
    fn next_pad_byte(&mut self) -> (k: u8)
        ensures
            final(self)@ == step(old(self)@),
            k == pad_byte(final(self)@),
    {
        self.i = self.i.wrapping_add(1);
        self.j = self.j.wrapping_add(self.s[self.i as usize]);
        let i: usize = self.i as usize;
        let j: usize = self.j as usize;
        swap_entries(&mut self.s, i, j);
        self.s[self.s[i].wrapping_add(self.s[j]) as usize]
    }

    /// XORs `data` with the next `data.len()` pad bytes and leaves the
    /// cipher where the pad ended.
    pub fn decrypt(&mut self, data: &[u8]) -> (output: Vec<u8>)
        ensures
            output@ == xor_with_pad(data@, keystream(old(self)@, data@.len())),
            final(self)@ == advance(old(self)@, data@.len()),
            well_formed(old(self)@) ==> well_formed(final(self)@),
    {
        let mut output: Vec<u8> = Vec::with_capacity(data.len());
        let mut n: usize = 0;
        while n < data.len()
            invariant
                n <= data@.len(),
                self@ == advance(old(self)@, n as nat),
                output@.len() == n,
                forall|k: int|
                    0 <= k < n ==> #[trigger] output@[k] == data@[k] ^ pad_byte(
                        advance(old(self)@, (k + 1) as nat),
                    ),
            decreases data@.len() - n,
        {
            let k: u8 = self.next_pad_byte();
            output.push(data[n] ^ k);
            n = n + 1;
        }
        proof {
            assert(output@ =~= xor_with_pad(data@, keystream(old(self)@, data@.len())));
            if well_formed(old(self)@) {
                lemma_advance_well_formed(old(self)@, data@.len());
            }
        }
        output
    }
}

/// Transforms `data` with a cipher freshly keyed with `key`.
pub fn rc4_decrypt(data: &[u8], key: &[u8]) -> (output: Vec<u8>)
    requires
        key@.len() > 0,
    ensures
        output@ == rc4_spec(data@, key@),
        output@.len() == data@.len(),
{
    let mut rc4 = RC4::new(key);
    rc4.decrypt(data)
}

/// RC4 is its own inverse: transforming twice under the same key gives the
/// buffer back.
pub proof fn lemma_rc4_round_trip(data: Seq<u8>, key: Seq<u8>)
    requires
        key.len() > 0,
    ensures
        rc4_spec(rc4_spec(data, key), key) == data,
{
    let pad = keystream(initial_state(key), data.len());
    assert(rc4_spec(data, key).len() == data.len());
    lemma_pad_round_trip(data, pad);
}

} // verus!
