//! The randomness source: a reproducible 32-byte block derived from a rolling
//! seed, accumulated entropy and the block environment.
use vstd::prelude::*;

use vstd::utf8::encode_utf8;

use crate::bytes::{append_bytes, be_bytes_u64, u64_to_be_bytes};

verus! {

/// The SHA-256 digest of a byte string.
pub uninterp spec fn sha256_of(data: Seq<u8>) -> Seq<u8>;

/// The first 32 bytes of the ChaCha20 key stream for a 32-byte key.
pub uninterp spec fn chacha_block(seed: Seq<u8>) -> Seq<u8>;

/// The bytes of the standard padded Base64 text of a byte string.
pub uninterp spec fn base64_of(data: Seq<u8>) -> Seq<u8>;

/// Relies on `sha2::Sha256::digest` (through `sha2::Digest`): the SHA-256
/// digest of the input, which is 32 bytes long.
#[verifier::external_body]
pub fn sha_256(data: &[u8]) -> (r: Vec<u8>)
    ensures
        r@ == sha256_of(data@),
        r@.len() == 32,
{
    <sha2::Sha256 as sha2::Digest>::digest(data).to_vec()
}

/// Relies on `rand_chacha::ChaChaRng` (ChaCha20): seeded by
/// `rand_core::SeedableRng::from_seed` with the 32-byte seed, then
/// `rand_core::RngCore::fill_bytes` on a 32-byte buffer yields the first 32
/// bytes of its key stream.
#[verifier::external_body]
fn chacha_bytes(seed: &[u8]) -> (r: Vec<u8>)
    requires
        seed@.len() == 32,
    ensures
        r@ == chacha_block(seed@),
        r@.len() == 32,
{
    let mut key = [0u8; 32];
    key.copy_from_slice(seed);
    let mut rng = <rand_chacha::ChaChaRng as rand_core::SeedableRng>::from_seed(key);
    let mut out = [0u8; 32];
    rand_core::RngCore::fill_bytes(&mut rng, &mut out);
    out.to_vec()
}

/// Relies on `base64::encode`: the standard, padded Base64 text of the input.
#[verifier::external_body]
pub(crate) fn base64_encode(data: &[u8]) -> (r: String)
    ensures
        encode_utf8(r@) == base64_of(data@),
{
    base64::encode(data)
}

/// What the host tells about the invocation being processed.
pub struct BlockEnv {
    /// block height
    pub height: u64,
    /// block time, in seconds since the epoch
    pub time: u64,
    /// the bytes of the address that sent the message
    pub sender: Vec<u8>,
}

/// The entropy fed to the generator: height and time in big-endian, the
/// sender's address, then the caller-supplied entropy.
pub open spec fn env_entropy(height: u64, time: u64, sender: Seq<u8>, entropy: Seq<u8>) -> Seq<u8> {
    be_bytes_u64(height) + be_bytes_u64(time) + sender + entropy
}

/// The generator's key: the SHA-256 digest of the seed followed by the entropy.
pub open spec fn prng_key(seed: Seq<u8>, entropy: Seq<u8>) -> Seq<u8> {
    sha256_of(seed + entropy)
}

/// The 32-byte block derived from a seed and the invocation's entropy.
pub open spec fn rand_block(seed: Seq<u8>, height: u64, time: u64, sender: Seq<u8>, entropy: Seq<u8>) -> Seq<u8> {
    chacha_block(prng_key(seed, env_entropy(height, time, sender, entropy)))
}

/// Returns the generator entropy for `env` and the caller-supplied `entropy`.
pub fn extend_entropy(env: &BlockEnv, entropy: &[u8]) -> (r: Vec<u8>)
    ensures
        r@ == env_entropy(env.height, env.time, env.sender@, entropy@),
{
    let mut out = u64_to_be_bytes(env.height);
    let t = u64_to_be_bytes(env.time);
    append_bytes(&mut out, t.as_slice());
    append_bytes(&mut out, env.sender.as_slice());
    append_bytes(&mut out, entropy);
    out
}

/// Returns 32 pseudo-random bytes derived from `seed`, the caller-supplied
/// `entropy` and `env`; the same inputs always give the same block.
pub fn get_rand_slice(env: &BlockEnv, seed: &[u8], entropy: &[u8]) -> (r: Vec<u8>)
    ensures
        r@ == rand_block(seed@, env.height, env.time, env.sender@, entropy@),
        r@.len() == 32,
{
    let rng_entropy = extend_entropy(env, entropy);
    let mut input: Vec<u8> = Vec::new();
    append_bytes(&mut input, seed);
    append_bytes(&mut input, rng_entropy.as_slice());
    let key = sha_256(input.as_slice());
    chacha_bytes(key.as_slice())
}

/// How many further blocks a battle may derive while drawing upgrade bytes.
pub const MAX_REDRAWS: u32 = 1000;

/// Bytes at or above this value are discarded when drawing upgrade bytes, so
/// that every residue modulo 23 is equally likely.
pub const REJECT_FROM: u8 = 253;

/// Draws upgrade bytes: scans `block` from `pos`, keeping each byte below
/// 253, until four are kept; when a block runs out, derives the next one from
/// it with the same environment and entropy, at most `fuel` more times.
/// Gives the four bytes and the block in which the last was found.
pub open spec fn draw_upgrade(
    block: Seq<u8>,
    pos: int,
    acc: Seq<u8>,
    height: u64,
    time: u64,
    sender: Seq<u8>,
    entropy: Seq<u8>,
    fuel: nat,
) -> Option<(Seq<u8>, Seq<u8>)>
    decreases fuel, block.len() - pos,
{
    if acc.len() >= 4 {
        Some((acc, block))
    } else if 0 <= pos < block.len() {
        let kept = if block[pos] < 253 {
            acc.push(block[pos])
        } else {
            acc
        };
        draw_upgrade(block, pos + 1, kept, height, time, sender, entropy, fuel)
    } else if fuel == 0 {
        None
    } else {
        draw_upgrade(
            rand_block(block, height, time, sender, entropy),
            0,
            acc,
            height,
            time,
            sender,
            entropy,
            (fuel - 1) as nat,
        )
    }
}

/// The randomness of one battle: the comparison skill index (the first byte
/// of the first block, modulo 4), the four upgrade bytes drawn after it, and
/// the block that becomes the next seed.
pub open spec fn battle_draw(seed: Seq<u8>, height: u64, time: u64, sender: Seq<u8>, entropy: Seq<u8>) -> Option<
    (int, Seq<u8>, Seq<u8>),
> {
    let b0 = rand_block(seed, height, time, sender, entropy);
    match draw_upgrade(b0, 1, Seq::empty(), height, time, sender, entropy, MAX_REDRAWS as nat) {
        Some((up, last)) => Some(((b0[0] % 4) as int, up, last)),
        None => None,
    }
}

/// The randomness drawn for one battle.
pub struct BattleDraw {
    /// index of the skill the battle is fought on
    pub fight_idx: u8,
    /// four bytes, each below 253, that shape the winner's upgrade
    pub upgrade_rand: Vec<u8>,
    /// the last block derived, which seeds the next battle
    pub next_seed: Vec<u8>,
}

/// Draws the randomness of one battle from `seed`, the accumulated `entropy`
/// and `env`. Returns `None` only if `MAX_REDRAWS` further blocks still do not
/// hold four bytes below 253.
pub fn draw_battle_randomness(env: &BlockEnv, seed: &[u8], entropy: &[u8]) -> (r: Option<BattleDraw>)
    ensures
        match r {
            Some(d) => {
                &&& battle_draw(seed@, env.height, env.time, env.sender@, entropy@) == Some(
                    (d.fight_idx as int, d.upgrade_rand@, d.next_seed@),
                )
                &&& d.fight_idx < 4
                &&& d.upgrade_rand@.len() == 4
            },
            None => battle_draw(seed@, env.height, env.time, env.sender@, entropy@) is None,
        },
{
    let mut block = get_rand_slice(env, seed, entropy);
    let ghost b0 = block@;
    let fight_idx: u8 = block[0] % 4;
    let mut pos: usize = 1;
    let mut acc: Vec<u8> = Vec::new();
    let mut fuel: u32 = MAX_REDRAWS;
    while acc.len() < 4
        invariant
            b0 == rand_block(seed@, env.height, env.time, env.sender@, entropy@),
            block@.len() == 32,
            pos <= 32,
            acc@.len() <= 4,
            draw_upgrade(block@, pos as int, acc@, env.height, env.time, env.sender@, entropy@, fuel as nat)
                == draw_upgrade(b0, 1, Seq::empty(), env.height, env.time, env.sender@, entropy@, MAX_REDRAWS as nat),
        decreases fuel, block@.len() - pos,
    {
        if pos < block.len() {
            let b = block[pos];
            if b < REJECT_FROM {
                acc.push(b);
            }
            pos = pos + 1;
        } else if fuel == 0 {
            assert(draw_upgrade(block@, pos as int, acc@, env.height, env.time, env.sender@, entropy@, 0)
                is None);
            return None;
        } else {
            block = get_rand_slice(env, block.as_slice(), entropy);
            pos = 0;
            fuel = fuel - 1;
        }
    }
    Some(BattleDraw { fight_idx, upgrade_rand: acc, next_seed: block })
}

/// Determinism: the same seed, entropy, block height, block time and caller
/// always give the same comparison index, upgrade bytes and next seed.
pub proof fn lemma_battle_draw_deterministic(
    seed1: Seq<u8>,
    seed2: Seq<u8>,
    height1: u64,
    height2: u64,
    time1: u64,
    time2: u64,
    sender1: Seq<u8>,
    sender2: Seq<u8>,
    entropy1: Seq<u8>,
    entropy2: Seq<u8>,
)
    requires
        seed1 == seed2,
        height1 == height2,
        time1 == time2,
        sender1 == sender2,
        entropy1 == entropy2,
    ensures
        battle_draw(seed1, height1, time1, sender1, entropy1) == battle_draw(
            seed2,
            height2,
            time2,
            sender2,
            entropy2,
        ),
        rand_block(seed1, height1, time1, sender1, entropy1) == rand_block(
            seed2,
            height2,
            time2,
            sender2,
            entropy2,
        ),
{
}

} // verus!
