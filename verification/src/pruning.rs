//! How much of the past a node keeps, as chosen on the command line.

use vstd::prelude::*;

verus! {

/// The number of blocks whose state a node keeps where nothing else was
/// chosen and it is no authority.
pub const DEFAULT_MAX_BLOCKS: u32 = 256;

/// The choices made on the command line.
#[derive(Debug, Clone, PartialEq)]
pub struct PruningParams {
    /// The state pruning mode: `archive`, or a number of blocks to keep
    /// the state of.
    pub pruning: Option<String>,
    /// The number of finalized blocks to keep; all where it is missing.
    pub keep_blocks: Option<u32>,
}

/// Which finalized blocks are kept.
#[derive(Clone, Copy, Debug, PartialEq, Eq)]
pub enum KeepBlocks {
    All,
    /// The given number of them.
    Last(u32),
}

/// The limits within which state is kept.
#[derive(Clone, Copy, Debug, PartialEq, Eq)]
pub struct Constraints {
    /// The number of blocks whose state is kept, where there is a limit.
    pub max_blocks: Option<u32>,
    /// The memory that the kept state may take, where there is a limit.
    pub max_mem: Option<usize>,
}

/// Which state is kept.
#[derive(Clone, Copy, Debug, PartialEq, Eq)]
pub enum PruningMode {
    /// The state of every block, canonical or not.
    ArchiveAll,
    /// The state of every canonical block.
    ArchiveCanonical,
    /// The state within the limits.
    Constrained(Constraints),
}

/// Why the choices could not be read.
#[derive(Clone, Copy, Debug, PartialEq, Eq)]
pub enum PruningError {
    /// The pruning mode is neither `archive` nor a number of blocks.
    InvalidPruningMode,
}

/// The value of the decimal digit `c`, if it is one.
pub open spec fn digit_value(c: char) -> Option<nat> {
    if '0' <= c && c <= '9' {
        Some((c as u32 - '0' as u32) as nat)
    } else {
        None
    }
}

/// The number that the decimal digits `digits` denote, or `None` where one
/// of them is no digit. No digits denote zero.
pub open spec fn digits_value(digits: Seq<char>) -> Option<nat>
    decreases digits.len(),
{
    if digits.len() == 0 {
        Some(0)
    } else {
        match (digits_value(digits.drop_last()), digit_value(digits.last())) {
            (Some(high), Some(low)) => Some(high * 10 + low),
            _ => None,
        }
    }
}

/// The number of blocks that `text` denotes: one or more decimal digits,
/// with or without a `+` before them, whose value fits in 32 bits.
pub open spec fn block_count(text: Seq<char>) -> Option<u32> {
    let digits = if text.len() > 0 && text[0] == '+' {
        text.drop_first()
    } else {
        text
    };
    if digits.len() == 0 {
        None
    } else {
        match digits_value(digits) {
            Some(value) => if value <= u32::MAX {
                Some(value as u32)
            } else {
                None
            },
            None => None,
        }
    }
}

/// The characters of `archive`.
pub open spec fn archive_word() -> Seq<char> {
    seq!['a', 'r', 'c', 'h', 'i', 'v', 'e']
}

/// The mode that keeps the state of the last `max_blocks` blocks.
pub open spec fn keeping(max_blocks: u32) -> PruningMode {
    PruningMode::Constrained(Constraints { max_blocks: Some(max_blocks), max_mem: None })
}

/// The value of a run of digits does not shrink when digits are added.
proof fn lemma_digits_grow(digits: Seq<char>, upto: int)
    requires
        0 <= upto <= digits.len(),
        digits_value(digits) is Some,
    ensures
        digits_value(digits.take(upto)) is Some,
        digits_value(digits.take(upto)).unwrap() <= digits_value(digits).unwrap(),
    decreases digits.len() - upto,
{
    if upto == digits.len() {
        assert(digits.take(upto) == digits);
    } else {
        lemma_digits_some_prefix(digits, upto + 1);
        lemma_digits_grow(digits, upto + 1);
        assert(digits.take(upto + 1).drop_last() == digits.take(upto));
    }
}

/// Every run of digits that a number starts with is a number.
proof fn lemma_digits_some_prefix(digits: Seq<char>, upto: int)
    requires
        0 <= upto <= digits.len(),
        digits_value(digits) is Some,
    ensures
        digits_value(digits.take(upto)) is Some,
    decreases digits.len() - upto,
{
    if upto == digits.len() {
        assert(digits.take(upto) == digits);
    } else {
        lemma_digits_some_prefix(digits, upto + 1);
        assert(digits.take(upto + 1).drop_last() == digits.take(upto));
    }
}

/// The number of blocks that `text` denotes: see `block_count`.
pub fn parse_block_count(text: &str) -> (count: Option<u32>)
    ensures
        count == block_count(text@),
{
    let n = text.unicode_len();
    let start: usize = if n > 0 && text.get_char(0) == '+' {
        1
    } else {
        0
    };
    if start == n {
        return None;
    }
    let ghost digits = if start == 1 {
        text@.drop_first()
    } else {
        text@
    };
    let mut value: u64 = 0;
    let mut i: usize = start;
    assert(digits.take(0) =~= Seq::<char>::empty());
    while i < n
        invariant
            start <= i <= n,
            n == text@.len(),
            digits.len() == n - start,
            forall|j: int| 0 <= j < digits.len() ==> digits[j] == text@[j + start],
            digits == (if text@.len() > 0 && text@[0] == '+' {
                text@.drop_first()
            } else {
                text@
            }),
            digits_value(digits.take(i - start)) == Some(value as nat),
            value <= u32::MAX,
        decreases n - i,
    {
        let c = text.get_char(i);
        let ghost prefix = digits.take(i - start + 1);
        proof {
            assert(prefix.drop_last() == digits.take(i - start));
            assert(prefix.last() == c);
        }
        if c < '0' || c > '9' {
            proof {
                assert(digit_value(c) is None);
                assert(digits_value(prefix) is None);
                if digits_value(digits) is Some {
                    lemma_digits_some_prefix(digits, i - start + 1);
                }
            }
            return None;
        }
        let low = (c as u32 - '0' as u32) as u64;
        assert(digit_value(c) == Some(low as nat));
        value = value * 10 + low;
        assert(digits_value(prefix) == Some(value as nat));
        if value > u32::MAX as u64 {
            proof {
                if digits_value(digits) is Some {
                    lemma_digits_grow(digits, i - start + 1);
                }
            }
            return None;
        }
        i += 1;
    }
    assert(digits.take(n - start) == digits);
    Some(value as u32)
}

impl PruningParams {
    /// The state pruning mode that was chosen. `archive` keeps everything;
    /// a number keeps the state of that many blocks; anything else is an
    /// error. Where nothing was chosen an authority keeps everything, and
    /// every other node the state of the last 256 blocks.
    pub fn state_pruning(&self, is_authority: bool) -> (mode: Result<PruningMode, PruningError>)
        ensures
            mode == (match self.pruning {
                Some(text) => if text@ == archive_word() {
                    Ok(PruningMode::ArchiveAll)
                } else {
                    match block_count(text@) {
                        Some(count) => Ok(keeping(count)),
                        None => Err(PruningError::InvalidPruningMode),
                    }
                },
                None => if is_authority {
                    Ok(PruningMode::ArchiveAll)
                } else {
                    Ok(keeping(DEFAULT_MAX_BLOCKS))
                },
            }),
    {
        match &self.pruning {
            Some(text) => {
                proof {
                    reveal_strlit("archive");
                }
                let archive = String::from_str("archive");
                assert(archive@ =~= archive_word());
                if *text == archive {
                    Ok(PruningMode::ArchiveAll)
                } else {
                    match parse_block_count(text.as_str()) {
                        Some(count) => Ok(
                            PruningMode::Constrained(
                                Constraints { max_blocks: Some(count), max_mem: None },
                            ),
                        ),
                        None => Err(PruningError::InvalidPruningMode),
                    }
                }
            },
            None => {
                if is_authority {
                    Ok(PruningMode::ArchiveAll)
                } else {
                    Ok(
                        PruningMode::Constrained(
                            Constraints { max_blocks: Some(DEFAULT_MAX_BLOCKS), max_mem: None },
                        ),
                    )
                }
            },
        }
    }

    /// Which finalized blocks are kept: the chosen number, or all.
    pub fn keep_blocks(&self) -> (kept: KeepBlocks)
        ensures
            kept == (match self.keep_blocks {
                Some(n) => KeepBlocks::Last(n),
                None => KeepBlocks::All,
            }),
    {
        match self.keep_blocks {
            Some(n) => KeepBlocks::Last(n),
            None => KeepBlocks::All,
        }
    }
}

} // verus!
