//! Block chains, the way every card filesystem here files a save.
//!
//! A card keeps a table with one entry per block, and each entry names the block its save carries
//! on in, or says that the save ends there. A directory entry names the first block. Reading a
//! save is following those links, and a card is only readable when the links stay on blocks a
//! save can occupy, never come back to a block already visited, and end where they should.

use vstd::prelude::*;

verus! {

/// The `k`-th block of the chain that starts at `first`: the start, then each link in turn.
pub open spec fn link(links: Seq<u16>, first: int, k: nat) -> int
    decreases k,
{
    if k == 0 {
        first
    } else {
        links[link(links, first, (k - 1) as nat)] as int
    }
}

/// Whether the chain from `first` is a readable save of exactly `n` blocks: every block is one a
/// save may occupy (`lo` up to `hi`), none comes round twice, every link but the last names
/// another block, and the last says the chain ends.
pub open spec fn chain_ends(links: Seq<u16>, first: int, n: nat, lo: int, hi: int, end: u16) -> bool {
    &&& n >= 1
    &&& forall|k: nat| k < n ==> lo <= #[trigger] link(links, first, k) < hi
    &&& forall|k: nat| k + 1 < n ==> links[#[trigger] link(links, first, k)] != end
    &&& links[link(links, first, (n - 1) as nat)] == end
    &&& forall|i: nat, j: nat|
        i < j < n ==> #[trigger] link(links, first, i) != #[trigger] link(links, first, j)
}

/// Whether `chain` lists the first `chain.len()` blocks of the chain from `first`.
pub open spec fn lists_chain(chain: Seq<usize>, links: Seq<u16>, first: int) -> bool {
    forall|k: int| 0 <= k < chain.len() ==> chain[k] == link(links, first, k as nat)
}

/// The first `n` blocks of the chain from `first`.
pub open spec fn chain_seq(links: Seq<u16>, first: int, n: nat) -> Seq<usize> {
    Seq::new(n, |k: int| link(links, first, k as nat) as usize)
}

/// A list of a chain's blocks that stay in range is that chain's opening blocks.
pub proof fn lemma_lists_chain(chain: Seq<usize>, links: Seq<u16>, first: int)
    requires
        lists_chain(chain, links, first),
    ensures
        chain == chain_seq(links, first, chain.len()),
{
    assert(chain =~= chain_seq(links, first, chain.len()));
}

/// A chain ends in one place at most: no save is two lengths at once.
pub proof fn lemma_one_length(links: Seq<u16>, first: int, n: nat, m: nat, lo: int, hi: int, end: u16)
    requires
        chain_ends(links, first, n, lo, hi, end),
        chain_ends(links, first, m, lo, hi, end),
    ensures
        n == m,
{
    if n < m {
        assert(link(links, first, (n - 1) as nat) == link(links, first, (n - 1) as nat));
    } else if m < n {
        assert(link(links, first, (m - 1) as nat) == link(links, first, (m - 1) as nat));
    }
}

/// Blocks that are all different and all lie in `lo` up to `hi` number no more than the range.
proof fn lemma_distinct_in_range(s: Seq<int>, lo: int, hi: int)
    requires
        lo <= hi,
        s.no_duplicates(),
        forall|i: int| 0 <= i < s.len() ==> lo <= #[trigger] s[i] < hi,
    ensures
        s.len() <= hi - lo,
{
    s.unique_seq_to_set();
    vstd::set_lib::lemma_int_range(lo, hi);
    assert(s.to_set().subset_of(vstd::set_lib::set_int_range(lo, hi)));
    vstd::set_lib::lemma_len_subset(s.to_set(), vstd::set_lib::set_int_range(lo, hi));
}

/// Whether `block` is already one of the first blocks of `chain`.
fn visited(chain: &Vec<usize>, block: usize) -> (r: bool)
    ensures
        r == exists|k: int| 0 <= k < chain@.len() && chain@[k] == block,
{
    let mut i: usize = 0;
    while i < chain.len()
        invariant
            i <= chain@.len(),
            forall|k: int| 0 <= k < i ==> chain@[k] != block,
        decreases chain@.len() - i,
    {
        if chain[i] == block {
            return true;
        }
        i = i + 1;
    }
    false
}

/// Follows a chain whose length the directory states, and gives its blocks back only when the
/// chain is a readable save of exactly `count` blocks.
///
/// The directory's count and the table's terminator are two statements about one save; a chain
/// where they disagree is refused rather than cut short at whichever came first.
pub fn follow_counted(links: &[u16], first: usize, count: usize, lo: usize, hi: usize, end: u16) -> (r: Option<Vec<usize>>)
    requires
        hi <= links@.len(),
    ensures
        r is Some <==> chain_ends(links@, first as int, count as nat, lo as int, hi as int, end),
        r is Some ==> r->0@.len() == count && lists_chain(r->0@, links@, first as int),
{
    if count == 0 || first < lo || first >= hi {
        proof {
            if count > 0 {
                assert(lo <= link(links@, first as int, 0) < hi ==> false);
            }
        }
        return None;
    }
    let mut chain: Vec<usize> = Vec::new();
    let mut current = first;
    loop
        invariant
            hi <= links@.len(),
            0 < count,
            chain@.len() < count,
            lists_chain(chain@, links@, first as int),
            current as int == link(links@, first as int, chain@.len() as nat),
            lo <= current < hi,
            forall|k: nat| k < chain@.len() ==> lo <= #[trigger] link(links@, first as int, k) < hi,
            forall|k: nat| k < chain@.len() ==> links@[#[trigger] link(links@, first as int, k)] != end,
            forall|i: nat, j: nat|
                i < j < chain@.len() ==> #[trigger] link(links@, first as int, i) != #[trigger] link(
                    links@,
                    first as int,
                    j,
                ),
        decreases count - chain@.len(),
    {
        let ghost len = chain@.len();
        if visited(&chain, current) {
            proof {
                let k = choose|k: int| 0 <= k < chain@.len() && chain@[k] == current;
                assert(link(links@, first as int, k as nat) == link(links@, first as int, len));
            }
            return None;
        }
        chain.push(current);
        let next = links[current];
        proof {
            assert(link(links@, first as int, (len + 1) as nat) == next as int);
            assert forall|k: int| 0 <= k < chain@.len() implies chain@[k] == link(
                links@,
                first as int,
                k as nat,
            ) by {
                if k < len {
                } else {
                }
            }
            assert forall|i: nat, j: nat| i < j < chain@.len() implies #[trigger] link(
                links@,
                first as int,
                i,
            ) != #[trigger] link(links@, first as int, j) by {
                if j == len {
                    assert(chain@[i as int] == link(links@, first as int, i));
                }
            }
        }
        if chain.len() == count {
            if next != end {
                return None;
            }
            return Some(chain);
        }
        if next == end {
            proof {
                assert((len + 1) < count);
            }
            return None;
        }
        if (next as usize) < lo || next as usize >= hi {
            proof {
                assert(!(lo <= link(links@, first as int, (len + 1) as nat) < hi));
            }
            return None;
        }
        current = next as usize;
    }
}

/// Follows a chain to its terminator, and gives its blocks back only when it is a readable save:
/// one that stays on blocks a save may occupy, never comes round twice, and does end.
pub fn follow_to_end(links: &[u16], first: usize, lo: usize, hi: usize, end: u16) -> (r: Option<Vec<usize>>)
    requires
        hi <= links@.len(),
    ensures
        r is Some ==> chain_ends(links@, first as int, r->0@.len() as nat, lo as int, hi as int, end)
            && lists_chain(r->0@, links@, first as int),
        r is None ==> forall|n: nat| !chain_ends(links@, first as int, n, lo as int, hi as int, end),
{
    if first < lo || first >= hi {
        proof {
            assert forall|n: nat| !chain_ends(links@, first as int, n, lo as int, hi as int, end) by {
                if n >= 1 {
                    assert(lo <= link(links@, first as int, 0) < hi ==> false);
                }
            }
        }
        return None;
    }
    let mut chain: Vec<usize> = Vec::new();
    let mut current = first;
    loop
        invariant
            hi <= links@.len(),
            lo <= current < hi,
            chain@.len() <= hi - lo,
            lists_chain(chain@, links@, first as int),
            current as int == link(links@, first as int, chain@.len() as nat),
            forall|k: nat| k < chain@.len() ==> lo <= #[trigger] link(links@, first as int, k) < hi,
            forall|k: nat| k < chain@.len() ==> links@[#[trigger] link(links@, first as int, k)] != end,
            forall|i: nat, j: nat|
                i < j < chain@.len() ==> #[trigger] link(links@, first as int, i) != #[trigger] link(
                    links@,
                    first as int,
                    j,
                ),
        decreases hi - lo - chain@.len(),
    {
        let ghost len = chain@.len();
        if visited(&chain, current) {
            proof {
                let k = choose|k: int| 0 <= k < chain@.len() && chain@[k] == current;
                assert(link(links@, first as int, k as nat) == link(links@, first as int, len));
                assert forall|n: nat| !chain_ends(links@, first as int, n, lo as int, hi as int, end) by {
                    if chain_ends(links@, first as int, n, lo as int, hi as int, end) {
                        if n <= len {
                            assert(links@[link(links@, first as int, (n - 1) as nat)] != end);
                        }
                    }
                }
            }
            return None;
        }
        chain.push(current);
        let next = links[current];
        proof {
            assert(link(links@, first as int, (len + 1) as nat) == next as int);
            assert forall|k: int| 0 <= k < chain@.len() implies chain@[k] == link(
                links@,
                first as int,
                k as nat,
            ) by {
                if k < len {
                } else {
                }
            }
            assert forall|i: nat, j: nat| i < j < chain@.len() implies #[trigger] link(
                links@,
                first as int,
                i,
            ) != #[trigger] link(links@, first as int, j) by {
                if j == len {
                    assert(chain@[i as int] == link(links@, first as int, i));
                }
            }
        }
        if next == end {
            return Some(chain);
        }
        if (next as usize) < lo || next as usize >= hi {
            proof {
                assert forall|n: nat| !chain_ends(links@, first as int, n, lo as int, hi as int, end) by {
                    if chain_ends(links@, first as int, n, lo as int, hi as int, end) {
                        if n <= len {
                            assert(links@[link(links@, first as int, (n - 1) as nat)] != end);
                        } else if n == len + 1 {
                        } else {
                            assert(lo <= link(links@, first as int, (len + 1) as nat) < hi);
                        }
                    }
                }
            }
            return None;
        }
        proof {
            let s = chain@.map_values(|b: usize| b as int);
            assert forall|i: int| 0 <= i < s.len() implies lo <= #[trigger] s[i] < hi by {
                assert(s[i] == link(links@, first as int, i as nat));
            }
            assert(s.no_duplicates()) by {
                assert forall|i: int, j: int|
                    0 <= i < s.len() && 0 <= j < s.len() && i != j implies s[i] != s[j] by {
                    assert(s[i] == link(links@, first as int, i as nat));
                    assert(s[j] == link(links@, first as int, j as nat));
                }
            }
            lemma_distinct_in_range(s, lo as int, hi as int);
        }
        current = next as usize;
    }
}

/// The bytes of the given blocks, in chain order.
pub open spec fn gather_blocks(image: Seq<u8>, chain: Seq<usize>, size: int) -> Seq<u8>
    decreases chain.len(),
{
    if chain.len() == 0 {
        Seq::empty()
    } else {
        let b = chain.last() as int;
        gather_blocks(image, chain.drop_last(), size) + image.subrange(b * size, (b + 1) * size)
    }
}

/// Reads the given blocks out of an image, in chain order.
pub fn gather(image: &[u8], chain: &[usize], size: usize) -> (r: Vec<u8>)
    requires
        forall|k: int| 0 <= k < chain@.len() ==> (chain@[k] + 1) * size <= image@.len(),
    ensures
        r@ == gather_blocks(image@, chain@, size as int),
{
    let mut out: Vec<u8> = Vec::new();
    let mut i: usize = 0;
    let total = image.len();
    while i < chain.len()
        invariant
            i <= chain@.len(),
            total == image@.len(),
            forall|k: int| 0 <= k < chain@.len() ==> (chain@[k] + 1) * size <= image@.len(),
            out@ == gather_blocks(image@, chain@.take(i as int), size as int),
        decreases chain@.len() - i,
    {
        let b = chain[i];
        proof {
            let bb = b as int;
            let ss = size as int;
            assert((bb + 1) * ss <= total);
            assert(bb * ss <= (bb + 1) * ss && (bb + 1) * ss == bb * ss + ss) by (nonlinear_arith)
                requires
                    bb >= 0,
                    ss >= 0,
            ;
        }
        let start = b * size;
        let stop = start + size;
        crate::bytes::push_all(&mut out, &image[start..stop]);
        proof {
            assert(chain@.take(i as int + 1).drop_last() =~= chain@.take(i as int));
            assert((b + 1) * size == b * size + size) by (nonlinear_arith);
        }
        i = i + 1;
    }
    assert(chain@.take(chain@.len() as int) =~= chain@);
    out
}

/// The table entries of a run of `n` blocks from `first`: each names the next, and the last says
/// the chain ends.
pub open spec fn run_links(first: int, n: int, end: u16) -> Seq<u16> {
    Seq::new(n as nat, |k: int| if k + 1 == n { end } else { (first + k + 1) as u16 })
}

/// Appends the table entries of a run of `n` blocks from `first`.
pub fn push_run(links: &mut Vec<u16>, first: usize, n: usize, end: u16)
    requires
        first + n <= 0x10000,
    ensures
        final(links)@ == old(links)@ + run_links(first as int, n as int, end),
{
    let ghost start = links@;
    let mut k: usize = 0;
    while k < n
        invariant
            k <= n,
            first + n <= 0x10000,
            links@ == start + run_links(first as int, n as int, end).take(k as int),
        decreases n - k,
    {
        let link: u16 = if k + 1 == n {
            end
        } else {
            (first + k + 1) as u16
        };
        links.push(link);
        assert(run_links(first as int, n as int, end).take(k + 1) =~= run_links(first as int, n as int, end).take(
            k as int,
        ).push(link));
        k = k + 1;
    }
    assert(run_links(first as int, n as int, end).take(n as int) =~= run_links(first as int, n as int, end));
}

/// Appends `count` copies of a table entry.
pub fn push_repeated_links(links: &mut Vec<u16>, value: u16, count: usize)
    ensures
        final(links)@ == old(links)@ + Seq::new(count as nat, |i: int| value),
{
    let ghost start = links@;
    let mut i: usize = 0;
    while i < count
        invariant
            i <= count,
            links@ == start + Seq::new(i as nat, |k: int| value),
        decreases count - i,
    {
        links.push(value);
        assert(Seq::new((i + 1) as nat, |k: int| value) =~= Seq::new(i as nat, |k: int| value).push(value));
        i = i + 1;
    }
}

/// Whether a table's entries from `first` chain a run of `n` blocks: each names the next, and the
/// last says the chain ends.
pub open spec fn holds_run(links: Seq<u16>, first: int, n: int, end: u16) -> bool {
    forall|m: int|
        0 <= m < n ==> #[trigger] links[first + m] == if m + 1 == n {
            end
        } else {
            (first + m + 1) as u16
        }
}

/// Following a run from its first block reaches the `k`-th block of the run in `k` steps.
proof fn lemma_link_of_run(links: Seq<u16>, first: int, n: int, end: u16, k: nat)
    requires
        holds_run(links, first, n, end),
        0 <= first,
        first + n <= 0x10000,
        k < n,
    ensures
        link(links, first, k) == first + k,
    decreases k,
{
    if k > 0 {
        lemma_link_of_run(links, first, n, end, (k - 1) as nat);
        assert(links[first + (k - 1)] == (first + k) as u16);
    }
}

/// A run a table chains is a readable save of exactly that many blocks, and its blocks are the
/// run's, in order.
pub proof fn lemma_run_is_chained(links: Seq<u16>, first: int, n: int, lo: int, hi: int, end: u16)
    requires
        holds_run(links, first, n, end),
        1 <= n,
        0 <= lo <= first,
        first + n <= hi,
        hi <= 0x10000,
        end <= lo || hi <= end,
    ensures
        chain_ends(links, first, n as nat, lo, hi, end),
        chain_seq(links, first, n as nat) == Seq::new(n as nat, |k: int| (first + k) as usize),
{
    assert forall|k: nat| k < n implies #[trigger] link(links, first, k) == first + k by {
        lemma_link_of_run(links, first, n, end, k);
    }
    assert forall|k: nat| k + 1 < n implies links[#[trigger] link(links, first, k)] != end by {
        assert(links[first + k] == (first + k + 1) as u16);
    }
    assert(links[link(links, first, (n - 1) as nat)] == end) by {
        assert(links[first + (n - 1)] == end);
    }
    assert(chain_seq(links, first, n as nat) =~= Seq::new(n as nat, |k: int| (first + k) as usize));
}

/// Gathering a run of blocks is reading the bytes they span.
pub proof fn lemma_gather_run(image: Seq<u8>, first: int, n: int, size: int)
    requires
        0 <= first,
        0 <= n,
        0 <= size,
        first + n <= 0x10000,
        (first + n) * size <= image.len(),
    ensures
        gather_blocks(image, Seq::new(n as nat, |k: int| (first + k) as usize), size) == image.subrange(
            first * size,
            (first + n) * size,
        ),
    decreases n,
{
    let chain = Seq::new(n as nat, |k: int| (first + k) as usize);
    if n == 0 {
        assert(image.subrange(first * size, first * size) =~= Seq::<u8>::empty());
    } else {
        assert(chain.drop_last() =~= Seq::new((n - 1) as nat, |k: int| (first + k) as usize));
        assert((first + n - 1) * size <= (first + n) * size && first * size <= (first + n - 1) * size
            && (first + n) * size == (first + n - 1) * size + size) by (nonlinear_arith)
            requires
                0 <= first,
                1 <= n,
                0 <= size,
        ;
        lemma_gather_run(image, first, n - 1, size);
        assert(chain.last() as int == first + n - 1);
        assert(image.subrange(first * size, (first + n - 1) * size) + image.subrange(
            (first + n - 1) * size,
            (first + n) * size,
        ) =~= image.subrange(first * size, (first + n) * size));
    }
}

/// Gathering blocks that all lie inside an image reads a block's worth of bytes for each.
pub proof fn lemma_gather_len(image: Seq<u8>, chain: Seq<usize>, size: int)
    requires
        0 <= size,
        forall|k: int| 0 <= k < chain.len() ==> (chain[k] + 1) * size <= image.len(),
    ensures
        gather_blocks(image, chain, size).len() == chain.len() * size,
    decreases chain.len(),
{
    if chain.len() > 0 {
        let b = chain.last() as int;
        assert((chain.last() + 1) * size <= image.len());
        lemma_gather_len(image, chain.drop_last(), size);
        assert(b * size <= (b + 1) * size && (b + 1) * size == b * size + size
            && chain.len() * size == (chain.len() - 1) * size + size) by (nonlinear_arith)
            requires
                0 <= b,
                0 <= size,
                chain.len() >= 1,
        ;
    }
}

} // verus!
