//! The chicken hash: a Merkle-Damgard-style hash with a 32-byte state,
//! folded down to an 8-byte digest.
use vstd::prelude::*;
use vstd::wrapping::u8_specs::wrapping_add;

verus! {

/// The initial state: the bytes of `chickenchickenchickenchickenchic`.
pub open spec fn initial_state() -> Seq<u8> {
    seq![
        99u8, 104, 105, 99, 107, 101, 110, 99, 104, 105, 99, 107, 101, 110, 99, 104, 105, 99, 107, 101,
        110, 99, 104, 105, 99, 107, 101, 110, 99, 104, 105, 99,
    ]
}

/// Rotate a byte left by three bits.
pub open spec fn rotl3(x: u8) -> u8 {
    (x << 3u8) | (x >> 5u8)
}

/// One mixing round of the state.
pub open spec fn mix_spec(s: Seq<u8>) -> Seq<u8> {
    Seq::new(32, |j: int| rotl3(wrapping_add(s[j], s[(j + 1) % 32])) ^ s[(j + 7) % 32])
}

/// Absorb byte `b` at position `i`, mixing after every 32nd byte.
pub open spec fn absorb(s: Seq<u8>, i: nat, b: u8) -> Seq<u8> {
    let p = (i % 32) as int;
    let s1 = s.update(p, s[p] ^ b);
    let k = ((i + 13) % 32) as int;
    let s2 = s1.update(k, wrapping_add(s1[k], b));
    if (i + 1) % 32 == 0 {
        mix_spec(s2)
    } else {
        s2
    }
}

/// The state after absorbing all of `data`.
pub open spec fn absorb_all(data: Seq<u8>) -> Seq<u8>
    decreases data.len(),
{
    if data.len() == 0 {
        initial_state()
    } else {
        absorb(absorb_all(data.drop_last()), (data.len() - 1) as nat, data.last())
    }
}

/// Fold the 32-byte state to 8 bytes by XOR of the bytes equal modulo 8.
pub open spec fn fold_out(s: Seq<u8>) -> Seq<u8> {
    Seq::new(8, |j: int| ((s[j] ^ s[j + 8]) ^ s[j + 16]) ^ s[j + 24])
}

/// The chicken hash of `data`.
pub closed spec fn chicken_hash_spec(data: Seq<u8>) -> Seq<u8> {
    fold_out(mix_spec(mix_spec(mix_spec(mix_spec(absorb_all(data))))))
}

/// What the chicken hash is: absorb every byte into the initial state,
/// apply four more mixing rounds, and fold the state down to 8 bytes.
pub proof fn lemma_chicken_hash_def(data: Seq<u8>)
    ensures
        chicken_hash_spec(data) == fold_out(mix_spec(mix_spec(mix_spec(mix_spec(absorb_all(data)))))),
{
}

/// The chicken hash is 8 bytes long.
pub proof fn lemma_chicken_hash_len(data: Seq<u8>)
    ensures
        chicken_hash_spec(data).len() == 8,
{
}

fn mix_state(state: &mut [u8; 32])
    ensures
        final(state)@ == mix_spec(old(state)@),
{
    let prev = *state;
    let mut j: usize = 0;
    while j < 32
        invariant
            j <= 32,
            prev@.len() == 32,
            forall|k: int| 0 <= k < j ==> #[trigger] state@[k] == mix_spec(prev@)[k],
        decreases 32 - j,
    {
        let x = prev[j].wrapping_add(prev[(j + 1) % 32]);
        let r = (x << 3) | (x >> 5);
        state[j] = r ^ prev[(j + 7) % 32];
        j += 1;
    }
    assert(state@ =~= mix_spec(prev@));
}

/// A simple Merkle-Damgard-style hash producing an 8-byte digest.
///
/// Uses a 32-byte internal state for good mixing, then folds it down
/// to 8 bytes via XOR. Sized to match the 10-bit moduli.
pub fn chicken_hash(data: &[u8]) -> (digest: [u8; 8])
    ensures
        digest@ == chicken_hash_spec(data@),
{
    let mut state: [u8; 32] = [
        99, 104, 105, 99, 107, 101, 110, 99, 104, 105, 99, 107, 101, 110, 99, 104, 105, 99, 107, 101,
        110, 99, 104, 105, 99, 107, 101, 110, 99, 104, 105, 99,
    ];
    assert(state@ =~= initial_state());
    let mut i: usize = 0;
    while i < data.len()
        invariant
            i <= data.len(),
            state@ == absorb_all(data@.take(i as int)),
        decreases data.len() - i,
    {
        let b = data[i];
        let p = i % 32;
        state[p] = state[p] ^ b;
        let k = (p + 13) % 32;
        assert(k == (i as nat + 13) % 32);
        state[k] = state[k].wrapping_add(b);
        let ghost absorbed = state@;
        if (i % 32) == 31 {
            mix_state(&mut state);
        }
        assert(data@.take(i + 1).drop_last() =~= data@.take(i as int));
        assert((i + 1) % 32 == 0 <==> i % 32 == 31);
        assert(state@ =~= absorb(absorb_all(data@.take(i as int)), i as nat, b));
        i += 1;
    }
    assert(data@.take(data.len() as int) =~= data@);
    mix_state(&mut state);
    mix_state(&mut state);
    mix_state(&mut state);
    mix_state(&mut state);
    let mut out = [0u8; 8];
    let mut j: usize = 0;
    while j < 8
        invariant
            j <= 8,
            state@ == mix_spec(mix_spec(mix_spec(mix_spec(absorb_all(data@))))),
            forall|k: int| 0 <= k < j ==> #[trigger] out@[k] == fold_out(state@)[k],
        decreases 8 - j,
    {
        out[j] = ((state[j] ^ state[j + 8]) ^ state[j + 16]) ^ state[j + 24];
        j += 1;
    }
    assert(out@ =~= fold_out(state@));
    out
}

/// Absorbing byte `i` of the data into the state reached after the first
/// `i` bytes: the byte is XOR-ed into position `i mod 32` and added
/// (wrapping) at position `(i + 13) mod 32`, every other position is kept;
/// and exactly when `i + 1` is a multiple of 32 (a 32-byte block is complete)
/// one mixing round is then applied to the whole state.
pub proof fn lemma_hash_absorption(data: Seq<u8>, i: int)
    requires
        0 <= i < data.len(),
    ensures
        (i + 1) % 32 != 0 ==> {
            let before = absorb_all(data.take(i));
            let after = absorb_all(data.take(i + 1));
            &&& after.len() == 32
            &&& after[i % 32] == before[i % 32] ^ data[i]
            &&& after[(i + 13) % 32] == wrapping_add(before[(i + 13) % 32], data[i])
            &&& forall|j: int| 0 <= j < 32 && j != i % 32 && j != (i + 13) % 32 ==> #[trigger] after[j] == before[j]
        },
        (i + 1) % 32 == 0 ==> {
            let before = absorb_all(data.take(i));
            let p = i % 32;
            let k = (i + 13) % 32;
            absorb_all(data.take(i + 1)) == mix_spec(
                before.update(p, before[p] ^ data[i]).update(k, wrapping_add(before[k], data[i])),
            )
        },
{
    lemma_absorb_all_len(data.take(i));
    let t = data.take(i + 1);
    assert(t.drop_last() =~= data.take(i));
    assert(t.last() == data[i]);
    assert((i + 13) % 32 != i % 32);
}

/// The state always has 32 bytes.
pub proof fn lemma_absorb_all_len(data: Seq<u8>)
    ensures
        absorb_all(data).len() == 32,
    decreases data.len(),
{
    if data.len() > 0 {
        lemma_absorb_all_len(data.drop_last());
    }
}

} // verus!
