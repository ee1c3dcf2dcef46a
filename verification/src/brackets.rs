//! Bracket matching on the tape.
//!
//! A loop instruction that has to jump looks for its partner: forward for the
//! close bracket that ends the block, backward for the open bracket that
//! starts it. Brackets of the same kind nest, and brackets inside the block
//! pair up among themselves.

use vstd::prelude::*;

verus! {

/// What reading `byte` does to the nesting depth.
pub open spec fn depth_change(byte: u8, open: u8, close: u8) -> int {
    if byte == open {
        1
    } else if byte == close {
        -1
    } else {
        0
    }
}

/// The number of `open` bytes minus the number of `close` bytes in
/// `tape[from..to]`.
pub open spec fn nesting(tape: Seq<u8>, open: u8, close: u8, from: int, to: int) -> int
    decreases to - from,
{
    if to <= from {
        0
    } else {
        nesting(tape, open, close, from, to - 1) + depth_change(tape[to - 1], open, close)
    }
}

/// `at` is where the block that was entered just before `from` ends: the
/// first `close` at or after `from` that no `open` since `from` is waiting for.
pub open spec fn closes_block(tape: Seq<u8>, open: u8, close: u8, from: int, at: int) -> bool {
    &&& 0 <= from <= at < tape.len()
    &&& tape[at] == close
    &&& nesting(tape, open, close, from, at) == 0
    &&& forall|k: int|
        from <= k < at && tape[k] == close ==> #[trigger] nesting(tape, open, close, from, k) != 0
}

/// `at` is where the block that ends just after `from` starts: the last
/// `open` at or before `from` that no `close` up to `from` answers.
pub open spec fn opens_block(tape: Seq<u8>, open: u8, close: u8, from: int, at: int) -> bool {
    &&& 0 <= at <= from < tape.len()
    &&& tape[at] == open
    &&& nesting(tape, open, close, at + 1, from + 1) == 0
    &&& forall|k: int|
        at < k <= from && tape[k] == open ==> #[trigger] nesting(tape, open, close, k + 1, from + 1)
            != 0
}

/// The index of the close bracket that a forward scan from `from` stops at,
/// if there is one.
pub open spec fn matching_close(tape: Seq<u8>, open: u8, close: u8, from: int) -> Option<int> {
    if exists|at: int| closes_block(tape, open, close, from, at) {
        Some(choose|at: int| closes_block(tape, open, close, from, at))
    } else {
        None
    }
}

/// The index of the open bracket that a backward scan from `from` stops at,
/// if there is one.
pub open spec fn matching_open(tape: Seq<u8>, open: u8, close: u8, from: int) -> Option<int> {
    if exists|at: int| opens_block(tape, open, close, from, at) {
        Some(choose|at: int| opens_block(tape, open, close, from, at))
    } else {
        None
    }
}

/// The nesting of a range is the sum of the nestings of its two parts.
pub proof fn lemma_nesting_split(tape: Seq<u8>, open: u8, close: u8, from: int, mid: int, to: int)
    requires
        from <= mid <= to,
    ensures
        nesting(tape, open, close, from, to) == nesting(tape, open, close, from, mid) + nesting(
            tape,
            open,
            close,
            mid,
            to,
        ),
    decreases to - mid,
{
    if to > mid {
        lemma_nesting_split(tape, open, close, from, mid, to - 1);
    }
}

/// At most one close bracket ends the block entered before `from`.
pub proof fn lemma_close_is_unique(tape: Seq<u8>, open: u8, close: u8, from: int, a: int, b: int)
    requires
        closes_block(tape, open, close, from, a),
        closes_block(tape, open, close, from, b),
    ensures
        a == b,
{
    if a < b {
        assert(nesting(tape, open, close, from, a) != 0);
    } else if b < a {
        assert(nesting(tape, open, close, from, b) != 0);
    }
}

/// At most one open bracket starts the block left after `from`.
pub proof fn lemma_open_is_unique(tape: Seq<u8>, open: u8, close: u8, from: int, a: int, b: int)
    requires
        opens_block(tape, open, close, from, a),
        opens_block(tape, open, close, from, b),
    ensures
        a == b,
{
    if a < b {
        assert(nesting(tape, open, close, b + 1, from + 1) != 0);
    } else if b < a {
        assert(nesting(tape, open, close, a + 1, from + 1) != 0);
    }
}

/// Before the close bracket of a block, no prefix of the block closes more
/// than it opens.
proof fn lemma_prefix_depth(tape: Seq<u8>, open: u8, close: u8, from: int, at: int, k: int)
    requires
        closes_block(tape, open, close, from, at),
        from <= k <= at,
    ensures
        nesting(tape, open, close, from, k) >= 0,
    decreases k - from,
{
    if k > from {
        lemma_prefix_depth(tape, open, close, from, at, k - 1);
        if tape[k - 1] == close {
            assert(nesting(tape, open, close, from, k - 1) != 0);
        }
    }
}

/// After the open bracket of a block, no suffix of the block opens more than
/// it closes.
proof fn lemma_suffix_depth(tape: Seq<u8>, open: u8, close: u8, from: int, at: int, k: int)
    requires
        opens_block(tape, open, close, from, at),
        at < k <= from + 1,
    ensures
        nesting(tape, open, close, k, from + 1) <= 0,
    decreases from + 1 - k,
{
    if k <= from {
        lemma_suffix_depth(tape, open, close, from, at, k + 1);
        lemma_nesting_split(tape, open, close, k, k + 1, from + 1);
        assert(nesting(tape, open, close, k, k + 1) == depth_change(tape[k], open, close)) by {
            assert(nesting(tape, open, close, k, k) == 0);
        }
        if tape[k] == open {
            assert(nesting(tape, open, close, k + 1, from + 1) != 0);
        }
    }
}

/// The two scans pair the same brackets: where the forward scan from just
/// after the open bracket at `start` stops at `end`, the backward scan from
/// just before `end` stops at `start`.
pub proof fn lemma_backward_scan_returns(
    tape: Seq<u8>,
    open: u8,
    close: u8,
    start: int,
    end: int,
)
    requires
        0 <= start,
        tape[start] == open,
        closes_block(tape, open, close, start + 1, end),
    ensures
        opens_block(tape, open, close, end - 1, start),
        matching_open(tape, open, close, end - 1) == Some(start),
{
    assert forall|k: int| start < k <= end - 1 && tape[k] == open implies #[trigger] nesting(
        tape,
        open,
        close,
        k + 1,
        end,
    ) != 0 by {
        lemma_prefix_depth(tape, open, close, start + 1, end, k);
        lemma_nesting_split(tape, open, close, start + 1, k + 1, end);
        assert(nesting(tape, open, close, start + 1, k + 1) == nesting(
            tape,
            open,
            close,
            start + 1,
            k,
        ) + 1);
    }
    let from = end - 1;
    assert(opens_block(tape, open, close, from, start));
    let found = choose|at: int| opens_block(tape, open, close, from, at);
    lemma_open_is_unique(tape, open, close, from, found, start);
}

/// The two scans pair the same brackets: where the backward scan from just
/// before the close bracket at `end` stops at `start`, the forward scan from
/// just after `start` stops at `end`.
pub proof fn lemma_forward_scan_returns(
    tape: Seq<u8>,
    open: u8,
    close: u8,
    start: int,
    end: int,
)
    requires
        open != close,
        end < tape.len(),
        tape[end] == close,
        opens_block(tape, open, close, end - 1, start),
    ensures
        closes_block(tape, open, close, start + 1, end),
        matching_close(tape, open, close, start + 1) == Some(end),
{
    assert forall|k: int| start + 1 <= k < end && tape[k] == close implies #[trigger] nesting(
        tape,
        open,
        close,
        start + 1,
        k,
    ) != 0 by {
        lemma_suffix_depth(tape, open, close, end - 1, start, k + 1);
        lemma_nesting_split(tape, open, close, start + 1, k, end);
        lemma_nesting_split(tape, open, close, k, k + 1, end);
        assert(nesting(tape, open, close, k, k + 1) == -1) by {
            assert(nesting(tape, open, close, k, k) == 0);
        }
    }
    let from = start + 1;
    assert(closes_block(tape, open, close, from, end));
    let found = choose|at: int| closes_block(tape, open, close, from, at);
    lemma_close_is_unique(tape, open, close, from, found, end);
}

/// Scans forward from `from` for the close bracket that ends the block.
pub fn find_close(tape: &[u8], open: u8, close: u8, from: usize) -> (found: Option<usize>)
    ensures
        match found {
            Some(at) => matching_close(tape@, open, close, from as int) == Some(at as int),
            None => matching_close(tape@, open, close, from as int) is None,
        },
        found matches Some(at) ==> closes_block(tape@, open, close, from as int, at as int),
{
    let mut depth: usize = 0;
    let mut at: usize = from;
    while at < tape.len()
        invariant
            from <= at,
            depth == nesting(tape@, open, close, from as int, at as int),
            depth <= at - from,
            forall|k: int|
                from <= k < at && tape@[k] == close ==> #[trigger] nesting(
                    tape@,
                    open,
                    close,
                    from as int,
                    k,
                ) != 0,
        decreases tape.len() - at,
    {
        let byte = tape[at];
        if depth == 0 && byte == close {
            proof {
                assert(closes_block(tape@, open, close, from as int, at as int));
                let chosen = choose|c: int| closes_block(tape@, open, close, from as int, c);
                lemma_close_is_unique(tape@, open, close, from as int, chosen, at as int);
            }
            return Some(at);
        }
        if byte == open {
            depth = depth + 1;
        } else if byte == close {
            depth = depth - 1;
        }
        at = at + 1;
    }
    proof {
        assert forall|c: int| !closes_block(tape@, open, close, from as int, c) by {
            if closes_block(tape@, open, close, from as int, c) {
                assert(nesting(tape@, open, close, from as int, c) != 0);
            }
        }
    }
    None
}

/// Scans backward from `from` for the open bracket that starts the block.
pub fn find_open(tape: &[u8], open: u8, close: u8, from: usize) -> (found: Option<usize>)
    ensures
        match found {
            Some(at) => matching_open(tape@, open, close, from as int) == Some(at as int),
            None => matching_open(tape@, open, close, from as int) is None,
        },
        found matches Some(at) ==> opens_block(tape@, open, close, from as int, at as int),
{
    if from >= tape.len() {
        return None;
    }
    let mut depth: usize = 0;
    let mut at: usize = from;
    loop
        invariant
            at <= from < tape.len(),
            depth == -nesting(tape@, open, close, at + 1, from + 1),
            depth <= from - at,
            forall|k: int|
                at < k <= from && tape@[k] == open ==> #[trigger] nesting(
                    tape@,
                    open,
                    close,
                    k + 1,
                    from + 1,
                ) != 0,
        decreases at,
    {
        let byte = tape[at];
        proof {
            lemma_nesting_split(tape@, open, close, at as int, at + 1, from + 1);
            assert(nesting(tape@, open, close, at as int, at + 1) == depth_change(
                byte,
                open,
                close,
            )) by {
                assert(nesting(tape@, open, close, at as int, at as int) == 0);
            }
        }
        if byte == open {
            if depth == 0 {
                proof {
                    assert(opens_block(tape@, open, close, from as int, at as int));
                    let chosen = choose|c: int| opens_block(tape@, open, close, from as int, c);
                    lemma_open_is_unique(tape@, open, close, from as int, chosen, at as int);
                }
                return Some(at);
            }
            depth = depth - 1;
        } else if byte == close {
            depth = depth + 1;
        }
        if at == 0 {
            proof {
                assert forall|c: int| !opens_block(tape@, open, close, from as int, c) by {
                    if opens_block(tape@, open, close, from as int, c) {
                        assert(nesting(tape@, open, close, c + 1, from + 1) == 0);
                        if c == 0 {
                            assert(byte == open);
                        }
                    }
                }
            }
            return None;
        }
        at = at - 1;
    }
}

} // verus!
