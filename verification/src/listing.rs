//! What the command line shows of an archive: its largest files first and
//! the names at its root.
use vstd::prelude::*;
use crate::asar::AsarHeader;
use crate::chars::{append_str, decimal_chars, push_char, push_decimal_chars};
use crate::setup::pad_left;

verus! {

/// Entry `i` comes before entry `j` in a largest-first listing: it is
/// larger, or as large and earlier.
pub open spec fn ranks_before(s: Seq<u64>, i: int, j: int) -> bool {
    s[i] > s[j] || (s[i] == s[j] && i < j)
}

/// `r` lists the `head` largest of the sizes `s` (all of them where there
/// are fewer), by index, largest first and in their order among equals.
pub open spec fn is_largest_first(s: Seq<u64>, head: nat, r: Seq<usize>) -> bool {
    &&& r.len() == if head < s.len() {
        head
    } else {
        s.len()
    }
    &&& forall|k: int| 0 <= k < r.len() ==> #[trigger] r[k] < s.len()
    &&& forall|a: int, b: int| 0 <= a < b < r.len() ==> ranks_before(s, #[trigger] r[a] as int, #[trigger] r[b] as int)
    &&& forall|x: int, a: int|
        #![trigger r[a], s[x]]
        0 <= x < s.len() && !r.contains(x as usize) && 0 <= a < r.len() ==> ranks_before(s, r[a] as int, x)
}

fn ranks_before_exec(s: &Vec<u64>, i: usize, j: usize) -> (r: bool)
    requires
        i < s@.len(),
        j < s@.len(),
    ensures
        r == ranks_before(s@, i as int, j as int),
{
    s[i] > s[j] || (s[i] == s[j] && i < j)
}

/// The indices of the `head` largest sizes, largest first, equal sizes in
/// the order they were given (see `is_largest_first`).
pub fn largest_first(sizes: &Vec<u64>, head: usize) -> (r: Vec<usize>)
    ensures
        is_largest_first(sizes@, head as nat, r@),
{
    let n = sizes.len();
    let want = if head < n {
        head
    } else {
        n
    };
    let mut chosen: Vec<bool> = Vec::new();
    let mut z: usize = 0;
    while z < n
        invariant
            z <= n,
            chosen@.len() == z,
            forall|x: int| 0 <= x < z ==> !#[trigger] chosen@[x],
        decreases n - z,
    {
        chosen.push(false);
        z = z + 1;
    }
    let mut out: Vec<usize> = Vec::new();
    while out.len() < want
        invariant
            n == sizes@.len(),
            want <= n,
            want == if head < n { head } else { n },
            chosen@.len() == n,
            out@.len() <= want,
            forall|k: int| 0 <= k < out@.len() ==> #[trigger] out@[k] < n,
            forall|x: int| 0 <= x < n ==> (#[trigger] chosen@[x] <==> out@.contains(x as usize)),
            forall|a: int, b: int|
                0 <= a < b < out@.len() ==> ranks_before(sizes@, #[trigger] out@[a] as int, #[trigger] out@[b] as int),
            forall|x: int, a: int|
                #![trigger out@[a], chosen@[x]]
                0 <= x < n && !chosen@[x] && 0 <= a < out@.len() ==> ranks_before(sizes@, out@[a] as int, x),
        decreases want - out@.len(),
    {
        proof {
            lemma_some_unchosen(chosen@, out@, n as int);
        }
        let mut best: usize = 0;
        while chosen[best]
            invariant
                n == sizes@.len(),
                chosen@.len() == n,
                best < n,
                exists|x: int| best <= x < n && !chosen@[x],
                forall|x: int| 0 <= x < best ==> chosen@[x],
            decreases n - best,
        {
            best = best + 1;
        }
        let mut y: usize = best + 1;
        while y < n
            invariant
                n == sizes@.len(),
                chosen@.len() == n,
                best < n,
                best < y <= n,
                !chosen@[best as int],
                forall|x: int| 0 <= x < y && x != best && !chosen@[x] ==> ranks_before(sizes@, best as int, x),
            decreases n - y,
        {
            if !chosen[y] && ranks_before_exec(sizes, y, best) {
                proof {
                    assert forall|x: int| 0 <= x < y + 1 && x != y && !chosen@[x] implies ranks_before(
                        sizes@,
                        y as int,
                        x,
                    ) by {
                        if x != best {
                            assert(ranks_before(sizes@, best as int, x));
                        }
                    }
                }
                best = y;
            }
            y = y + 1;
        }
        let ghost before = out@;
        let ghost old_chosen = chosen@;
        out.push(best);
        chosen.set(best, true);
        proof {
            assert forall|x: int| 0 <= x < n implies (#[trigger] chosen@[x] <==> out@.contains(x as usize)) by {
                if x == best {
                    assert(out@[out@.len() - 1] == best);
                } else {
                    if before.contains(x as usize) {
                        let k = choose|k: int| 0 <= k < before.len() && before[k] == x as usize;
                        assert(out@[k] == x as usize);
                    }
                    if out@.contains(x as usize) {
                        let k = choose|k: int| 0 <= k < out@.len() && out@[k] == x as usize;
                        assert(k < before.len());
                        assert(before[k] == x as usize);
                    }
                }
            }
            assert forall|a: int, b: int| 0 <= a < b < out@.len() implies ranks_before(
                sizes@,
                #[trigger] out@[a] as int,
                #[trigger] out@[b] as int,
            ) by {
                if b == out@.len() - 1 {
                    assert(out@[a] == before[a]);
                    assert(!chosen@[best as int] || true);
                }
            }
            assert forall|x: int, a: int|
                #![trigger out@[a], chosen@[x]]
                0 <= x < n && !chosen@[x] && 0 <= a < out@.len() implies ranks_before(sizes@, out@[a] as int, x) by {
                if a < before.len() {
                    assert(out@[a] == before[a]);
                    assert(x != best);
                    assert(!old_chosen[x]);
                } else {
                    assert(x != best);
                    assert(!old_chosen[x]);
                }
            }
        }
    }
    assert forall|x: int, a: int|
        #![trigger out@[a], sizes@[x]]
        0 <= x < n && !out@.contains(x as usize) && 0 <= a < out@.len() implies ranks_before(
            sizes@,
            out@[a] as int,
            x,
        ) by {
        assert(!chosen@[x]);
    }
    out
}

proof fn lemma_some_unchosen(chosen: Seq<bool>, out: Seq<usize>, n: int)
    requires
        chosen.len() == n,
        n <= usize::MAX,
        out.len() < n,
        forall|x: int| 0 <= x < n ==> (#[trigger] chosen[x] <==> out.contains(x as usize)),
    ensures
        exists|x: int| 0 <= x < n && !chosen[x],
{
    if forall|x: int| 0 <= x < n ==> chosen[x] {
        let s = out.map_values(|v: usize| v as int);
        assert forall|x: int| vstd::set_lib::set_int_range(0, n).contains(x) implies s.to_set().contains(x) by {
            assert(chosen[x]);
            let k = choose|k: int| 0 <= k < out.len() && out[k] == x as usize;
            assert(s[k] == x);
        }
        vstd::set_lib::lemma_int_range(0, n);
        s.lemma_cardinality_of_set();
        vstd::seq_lib::seq_to_set_is_finite(s);
        vstd::set_lib::lemma_len_subset(vstd::set_lib::set_int_range(0, n), s.to_set());
    }
}

/// A listing line: the size right-aligned in twelve columns, two spaces,
/// the path, and ` [unpacked]` for a file kept outside the archive.
pub open spec fn listing_line_text(size: nat, path: Seq<char>, unpacked: bool) -> Seq<char> {
    pad_left(decimal_chars(size), 12) + "  "@ + path + if unpacked {
        " [unpacked]"@
    } else {
        ""@
    }
}

/// The listing line of one file (see `listing_line_text`).
pub fn listing_line(size: u64, path: &str, unpacked: bool) -> (r: String)
    ensures
        r@ == listing_line_text(size as nat, path@, unpacked),
{
    let mut digits = String::new();
    push_decimal_chars(&mut digits, size);
    let n = vstd::string::StrSliceExecFns::unicode_len(digits.as_str());
    let mut out = String::new();
    let mut j = n;
    while j < 12
        invariant
            n == digits@.len(),
            n <= j <= 12 || (j == n && n >= 12),
            out@ == Seq::new((j - n) as nat, |i: int| ' '),
        decreases 12 - j,
    {
        push_char(&mut out, ' ');
        j = j + 1;
        assert(out@ =~= Seq::new((j - n) as nat, |i: int| ' '));
    }
    append_str(&mut out, digits.as_str());
    append_str(&mut out, "  ");
    append_str(&mut out, path);
    if unpacked {
        append_str(&mut out, " [unpacked]");
    } else {
        append_str(&mut out, "");
    }
    proof {
        if n >= 12 {
            assert(Seq::new(0nat, |i: int| ' ') + digits@ =~= digits@);
        }
        assert(out@ =~= listing_line_text(size as nat, path@, unpacked));
    }
    out
}

/// The names `names` separated by `sep`.
pub open spec fn joined_names(names: Seq<Seq<char>>, sep: Seq<char>) -> Seq<char>
    decreases names.len(),
{
    if names.len() == 0 {
        Seq::empty()
    } else if names.len() == 1 {
        names[0]
    } else {
        joined_names(names.drop_last(), sep) + sep + names.last()
    }
}

/// The names at the root of the archive, at most twenty, separated by commas.
pub open spec fn top_entries_text(h: AsarHeader) -> Seq<char> {
    let names = h.files@.map_values(|e: (String, crate::asar::AsarEntry)| e.0@);
    joined_names(crate::inspect::at_most(names, 20), ", "@)
}

/// The first twenty names at the root of the archive, comma-separated.
pub fn top_entries(header: &AsarHeader) -> (r: String)
    ensures
        r@ == top_entries_text(*header),
{
    let ghost names = header.files@.map_values(|e: (String, crate::asar::AsarEntry)| e.0@);
    let n = if header.files.len() < 20 {
        header.files.len()
    } else {
        20
    };
    let mut out = String::new();
    let mut i: usize = 0;
    while i < n
        invariant
            names == header.files@.map_values(|e: (String, crate::asar::AsarEntry)| e.0@),
            n <= header.files@.len(),
            i <= n,
            out@ == joined_names(names.take(i as int), ", "@),
        decreases n - i,
    {
        assert(names.take(i + 1).drop_last() =~= names.take(i as int));
        if i > 0 {
            append_str(&mut out, ", ");
            append_str(&mut out, header.files[i].0.as_str());
        } else {
            append_str(&mut out, header.files[i].0.as_str());
            assert(out@ =~= names.take(1)[0]);
        }
        i = i + 1;
        assert(out@ =~= joined_names(names.take(i as int), ", "@));
    }
    assert(names.take(n as int) =~= crate::inspect::at_most(names, 20));
    out
}

} // verus!
