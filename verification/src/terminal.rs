//! The source language's terminal surface: the token shapes the lexer knows,
//! and the builtin namespaces — block, coin, crypto, storage, math — that a
//! contract's author can call. The namespace methods stand in for target-side
//! facilities; at program definition time they answer with fixed placeholder
//! values, and their contracts say exactly which.

use vstd::prelude::*;

verus! {

/// The terminal alphabet of the source language, as the lexer classifies it:
/// literals, operators, punctuation, keywords and identifiers, each carrying
/// its source text.
pub struct TerminalFromJS {
    // Literals.
    pub boolean: bool,
    pub number: i32,
    pub string: String,
    pub array: Vec<String>,
    pub object: Vec<(String, String)>,
    // Operators.
    pub plus: String,
    pub minus: String,
    pub equal: String,
    pub not_equal: String,
    pub greater: String,
    pub greater_or_equal: String,
    pub less: String,
    pub less_or_equal: String,
    pub assign: String,
    pub and: String,
    pub or: String,
    pub not: String,
    pub negation: String,
    // Punctuation.
    pub paren: String,
    pub brace: String,
    pub bracket: String,
    pub comma: String,
    pub dot: String,
    pub colon: String,
    // Keywords.
    pub kw_if: String,
    pub kw_else: String,
    pub kw_true: String,
    pub kw_false: String,
    pub kw_for: String,
    pub kw_in: String,
    pub kw_let: String,
    pub kw_const: String,
    pub kw_static: String,
    pub kw_throw: String,
    pub kw_function: String,
    pub kw_this: String,
    // Identifiers.
    pub identifier: String,
}

/// The builtin namespaces a contract can name.
pub struct TerminalFromOp {
    pub block: Block,
    pub crypto: Crypto,
    pub coin: Coin,
    pub storage: Storage,
    pub math: Math,
}

/// Persistent contract storage.
pub struct Storage {}

/// Cryptographic checks and digests.
pub struct Crypto {}

/// The chain context.
pub struct Block {}

/// The coin being spent.
pub struct Coin {}

/// Integer arithmetic helpers.
pub struct Math {}

/// The answer the signature-check placeholder gives.
pub open spec fn crypto_verify_spec(pubkey: Seq<char>) -> bool {
    true
}

/// The digest the hash placeholders give.
pub open spec fn crypto_digest_spec(data: Seq<char>) -> Seq<char> {
    "dummy"@
}

/// The height the chain-context placeholder reports.
pub open spec fn block_height_spec() -> int {
    1
}

/// The amount the coin placeholder reports.
pub open spec fn coin_amount_spec() -> int {
    1
}

/// The confirmation count the coin placeholder reports.
pub open spec fn coin_confirmed_count_spec() -> int {
    1
}

impl Storage {
    /// Writes a value into the output, readable right after the contract is
    /// published. A definition-time placeholder: it keeps nothing.
    pub fn write(key: u8, value: String) {
    }

    /// Commits a value into the input, revealed only when the contract is
    /// spent. A definition-time placeholder: it keeps nothing.
    pub fn commit(key: u8, value: String) {
    }
}

impl Crypto {
    /// The signature-check placeholder: accepts every key.
    pub fn verify(pubkey: String) -> (r: bool)
        ensures
            r == crypto_verify_spec(pubkey@),
    {
        true
    }

    /// The SHA-256 placeholder digest.
    pub fn sha256(data: String) -> (r: String)
        ensures
            r@ == crypto_digest_spec(data@),
    {
        "dummy".to_owned()
    }

    /// The RIPEMD-160 placeholder digest.
    pub fn ripemd160(data: String) -> (r: String)
        ensures
            r@ == crypto_digest_spec(data@),
    {
        "dummy".to_owned()
    }

    /// The SHA-1 placeholder digest.
    pub fn sha1(data: String) -> (r: String)
        ensures
            r@ == crypto_digest_spec(data@),
    {
        "dummy".to_owned()
    }
}

impl Block {
    /// The current block height, as the placeholder reports it.
    pub fn height() -> (r: i32)
        ensures
            r == block_height_spec(),
    {
        1
    }
}

impl Coin {
    /// The spent output's amount, as the placeholder reports it.
    pub fn amount() -> (r: i32)
        ensures
            r == coin_amount_spec(),
    {
        1
    }

    /// The spent output's confirmation count, as the placeholder reports it.
    pub fn confirmed_count() -> (r: i32)
        ensures
            r == coin_confirmed_count_spec(),
    {
        1
    }
}

impl Math {
    /// The absolute value. The most negative value has none of its own type,
    /// so it is excluded.
    pub fn abs(num: i32) -> (r: i32)
        requires
            num != i32::MIN,
        ensures
            r == if num < 0 {
                -num as int
            } else {
                num as int
            },
    {
        if num < 0 {
            -num
        } else {
            num
        }
    }

    /// The larger of two values.
    pub fn max(a: i32, b: i32) -> (r: i32)
        ensures
            r == if a > b {
                a
            } else {
                b
            },
    {
        if a > b {
            a
        } else {
            b
        }
    }

    /// The smaller of two values.
    pub fn min(a: i32, b: i32) -> (r: i32)
        ensures
            r == if a > b {
                b
            } else {
                a
            },
    {
        if a > b {
            b
        } else {
            a
        }
    }
}

/// The product of a number near the witness range by one within it stays
/// within the sixty-four-bit machine range.
proof fn lemma_product_in_machine_range(a: int, c: int) by (nonlinear_arith)
    requires
        -0x7ffffffd <= a <= 0x80000002,
        -0x80000000 <= c <= 0x7fffffff,
    ensures
        -0x8000000000000000 <= a * c < 0x8000000000000000,
{
}

/// A contract written directly against the builtin namespaces.
pub struct Contract {}

/// Whether a spend passes every condition of the reference locking routine:
/// a single signature check, a two-of-two threshold of signature checks, an
/// absolute and a relative timelock, a hash-lock with a signature
/// alternative, an arithmetic condition over the witness numbers, and a
/// byte-string equality check.
pub open spec fn lock_spec(input: Seq<String>, nums: Seq<i32>) -> bool {
    let single_sig = crypto_verify_spec("dummy"@);
    let sigs_counted = (if crypto_verify_spec("dummy"@) {
        1int
    } else {
        0int
    }) + (if crypto_verify_spec("dummy"@) {
        1int
    } else {
        0int
    });
    let hash_lock = crypto_digest_spec(input[0]@) == "hash"@ || crypto_verify_spec("dummy"@);
    let height_lock = block_height_spec() < 100000 || crypto_verify_spec("dummy"@);
    // The quotient is the machine's truncating one: a negative product
    // truncates toward zero and so never reaches the expected value.
    let product = (nums[0] as int + 3) * (nums[2] as int);
    &&& single_sig
    &&& sigs_counted == 2
    &&& block_height_spec() >= 100000
    &&& coin_confirmed_count_spec() >= 100
    &&& height_lock
    &&& hash_lock
    &&& product >= 0 && product / 7 == 32
    &&& input[0]@ == "abc"@
}

impl Contract {
    /// The reference locking routine, written by hand against the builtin
    /// namespaces: true exactly when every condition of `lock_spec` admits
    /// the spend. The witness carries at least one byte string and three
    /// numbers; the arithmetic is carried out over sixty-four bits, which the
    /// operands cannot overflow.
    pub fn lock(input: Vec<String>, input_num: Vec<i32>) -> (r: bool)
        requires
            input@.len() >= 1,
            input_num@.len() >= 3,
        ensures
            r == lock_spec(input@, input_num@),
    {
        let alice = "dummy".to_owned();
        let bob = "dummy".to_owned();
        let data = "abc".to_owned();

        // Single signature.
        if !Crypto::verify(alice.clone()) {
            return false;
        }
        // Threshold multisignature.
        let mut threshold_musig: i32 = 2;
        if Crypto::verify(alice.clone()) {
            threshold_musig = threshold_musig - 1;
        }
        if Crypto::verify(bob.clone()) {
            threshold_musig = threshold_musig - 1;
        }
        if threshold_musig != 0 {
            return false;
        }
        // Absolute timelock.
        if Block::height() < 100000 {
            return false;
        }
        // Relative timelock.
        if Coin::confirmed_count() < 100 {
            return false;
        }
        // Hash-locked path with a signature alternative.
        if !(Block::height() < 100000 || Crypto::verify(alice.clone())) {
            return false;
        }
        let digest = Crypto::sha256(input[0].clone());
        let expected = "hash".to_owned();
        if !(digest == expected || Crypto::verify(bob.clone())) {
            return false;
        }
        // Arithmetic over the witness numbers.
        let addend = (input_num[0] as i64) + 3;
        let factor = input_num[2] as i64;
        proof {
            lemma_product_in_machine_range(addend as int, factor as int);
        }
        let product = addend * factor;
        if product < 0 {
            return false;
        }
        if (product as u64) / 7 != 32 {
            return false;
        }
        // Byte-string equality.
        let new_string = input[0].clone();
        if new_string != data {
            return false;
        }
        // Permanent storage, then the inscription.
        Storage::write(0, data.clone());
        Storage::write(1, data.clone());
        Storage::commit(2, data);
        true
    }
}

} // verus!
