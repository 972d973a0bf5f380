//! Which files of the working directory are frames, and in which order the
//! scan takes them.
//!
//! A file name is the sequence of its bytes. Frames are the files with the
//! extension `png`; they are taken in the lexicographic order of their names,
//! which is the order of their numbers as long as these are padded to one
//! length.

use vstd::prelude::*;

verus! {

/// The bytes of `.png`.
pub open spec fn frame_suffix() -> Seq<u8> {
    seq![0x2eu8, 0x70u8, 0x6eu8, 0x67u8]
}

/// The file name has the extension `png`: it ends in `.png`, and the dot is
/// not its first byte.
pub open spec fn is_frame_name(name: Seq<u8>) -> bool {
    name.len() > 4 && name.skip(name.len() - 4) == frame_suffix()
}

/// The two names agree before position `k`, and there `a` ends while `b`
/// goes on, or `a` has the smaller byte.
pub open spec fn first_difference_favours(a: Seq<u8>, b: Seq<u8>, k: int) -> bool {
    &&& 0 <= k <= a.len()
    &&& k < b.len()
    &&& a.take(k) == b.take(k)
    &&& (k == a.len() || a[k] < b[k])
}

/// `a` comes before `b` in the lexicographic order of their bytes.
pub open spec fn name_before(a: Seq<u8>, b: Seq<u8>) -> bool {
    exists|k: int| first_difference_favours(a, b, k)
}

/// The scan takes the file at position `p` of `names` before the one at
/// position `q`: its name comes first, or the names are equal and `p` is the
/// earlier position.
pub open spec fn taken_before(names: Seq<Seq<u8>>, p: int, q: int) -> bool {
    name_before(names[p], names[q]) || (names[p] == names[q] && p < q)
}

/// `order` lists the positions in `names` of the frames, each once, in the
/// order in which the scan takes them.
pub open spec fn is_frame_order(names: Seq<Seq<u8>>, order: Seq<usize>) -> bool {
    &&& forall|i: int|
        0 <= i < order.len() ==> (#[trigger] order[i]) < names.len() && is_frame_name(
            names[order[i] as int],
        )
    &&& forall|p: int|
        0 <= p < names.len() && is_frame_name(#[trigger] names[p]) ==> exists|i: int|
            0 <= i < order.len() && #[trigger] order[i] == p
    &&& forall|i: int, k: int|
        0 <= i < k < order.len() ==> taken_before(
            names,
            #[trigger] order[i] as int,
            #[trigger] order[k] as int,
        )
}

/// The names of a directory listing as sequences of bytes.
pub open spec fn name_table(names: Seq<Vec<u8>>) -> Seq<Seq<u8>> {
    names.map_values(|name: Vec<u8>| name@)
}

/// How two file names stand to each other in the lexicographic order.
#[derive(Clone, Copy, Debug, PartialEq, Eq, Structural)]
pub enum NameOrder {
    Before,
    Same,
    After,
}

/// Whether the file name has the extension `png`.
pub fn has_frame_extension(name: &[u8]) -> (frame: bool)
    ensures
        frame == is_frame_name(name@),
{
    let n: usize = name.len();
    if n <= 4 {
        return false;
    }
    let ends: bool = name[n - 4] == 0x2e && name[n - 3] == 0x70 && name[n - 2] == 0x6e && name[n
        - 1] == 0x67;
    proof {
        let tail = name@.skip(n - 4);
        assert(tail.len() == 4);
        assert(tail[0] == name@[n - 4]);
        assert(tail[1] == name@[n - 3]);
        assert(tail[2] == name@[n - 2]);
        assert(tail[3] == name@[n - 1]);
        if ends {
            assert(tail =~= frame_suffix());
        }
    }
    ends
}

proof fn lemma_differences_meet(a: Seq<u8>, b: Seq<u8>, i: int, k: int)
    requires
        0 <= i <= a.len(),
        i <= b.len(),
        a.take(i) == b.take(i),
        i == a.len() || i == b.len() || a[i] != b[i],
        first_difference_favours(a, b, k),
    ensures
        k == i,
{
    if k < i {
        assert(a.take(i)[k] == a[k]);
        assert(b.take(i)[k] == b[k]);
    } else if k > i {
        assert(a.take(k)[i] == a[i]);
        assert(b.take(k)[i] == b[i]);
    }
}

/// Where two names agree before position `i` and part ways there, that
/// position alone decides their order.
proof fn lemma_decided_at(a: Seq<u8>, b: Seq<u8>, i: int)
    requires
        0 <= i <= a.len(),
        i <= b.len(),
        a.take(i) == b.take(i),
        i == a.len() || i == b.len() || a[i] != b[i],
    ensures
        name_before(a, b) <==> i < b.len() && (i == a.len() || a[i] < b[i]),
        name_before(b, a) <==> i < a.len() && (i == b.len() || b[i] < a[i]),
        a == b <==> i == a.len() && i == b.len(),
{
    assert forall|k: int| first_difference_favours(a, b, k) implies k == i by {
        lemma_differences_meet(a, b, i, k);
    }
    assert forall|k: int| first_difference_favours(b, a, k) implies k == i by {
        lemma_differences_meet(b, a, i, k);
    }
    if i < b.len() && (i == a.len() || a[i] < b[i]) {
        assert(first_difference_favours(a, b, i));
    }
    if i < a.len() && (i == b.len() || b[i] < a[i]) {
        assert(first_difference_favours(b, a, i));
    }
    if i == a.len() && i == b.len() {
        assert(a.take(i) == a);
        assert(b.take(i) == b);
    }
}

/// Compares two file names byte by byte.
pub fn compare_names(a: &[u8], b: &[u8]) -> (order: NameOrder)
    ensures
        order is Before <==> name_before(a@, b@),
        order is Same <==> a@ == b@,
        order is After <==> name_before(b@, a@),
{
    let mut i: usize = 0;
    while i < a.len() && i < b.len()
        invariant
            i <= a.len(),
            i <= b.len(),
            a@.take(i as int) == b@.take(i as int),
        decreases a.len() - i,
    {
        if a[i] != b[i] {
            proof {
                lemma_decided_at(a@, b@, i as int);
            }
            if a[i] < b[i] {
                return NameOrder::Before;
            } else {
                return NameOrder::After;
            }
        }
        assert(a@.take(i + 1) =~= a@.take(i as int).push(a@[i as int]));
        assert(b@.take(i + 1) =~= b@.take(i as int).push(b@[i as int]));
        i = i + 1;
    }
    proof {
        lemma_decided_at(a@, b@, i as int);
    }
    if i < b.len() {
        NameOrder::Before
    } else if i < a.len() {
        NameOrder::After
    } else {
        NameOrder::Same
    }
}

/// Where in `order` the file at position `j` belongs: behind every file that
/// the scan takes before it, in front of every file that it takes after
/// it.
fn insertion_point(names: &Vec<Vec<u8>>, order: &Vec<usize>, j: usize) -> (at: usize)
    requires
        j < names.len(),
        forall|i: int| 0 <= i < order.len() ==> (#[trigger] order[i]) < j,
        forall|i: int, k: int|
            0 <= i < k < order.len() ==> taken_before(
                name_table(names@),
                #[trigger] order[i] as int,
                #[trigger] order[k] as int,
            ),
    ensures
        at <= order.len(),
        forall|i: int|
            0 <= i < at ==> taken_before(name_table(names@), #[trigger] order[i] as int, j as int),
        forall|i: int|
            at <= i < order.len() ==> taken_before(
                name_table(names@),
                j as int,
                #[trigger] order[i] as int,
            ),
{
    let ghost table = name_table(names@);
    let mut at: usize = order.len();
    while at > 0
        invariant
            at <= order.len(),
            j < names.len(),
            table == name_table(names@),
            forall|i: int| 0 <= i < order.len() ==> (#[trigger] order[i]) < j,
            forall|i: int, k: int|
                0 <= i < k < order.len() ==> taken_before(
                    table,
                    #[trigger] order[i] as int,
                    #[trigger] order[k] as int,
                ),
            forall|i: int|
                at <= i < order.len() ==> taken_before(table, j as int, #[trigger] order[i] as int),
        decreases at,
    {
        let earlier: usize = order[at - 1];
        match compare_names(names[j].as_slice(), names[earlier].as_slice()) {
            NameOrder::Before => {},
            _ => {
                proof {
                    assert(taken_before(table, earlier as int, j as int));
                    assert forall|i: int| 0 <= i < at implies taken_before(
                        table,
                        #[trigger] order[i] as int,
                        j as int,
                    ) by {
                        if i < at - 1 {
                            lemma_taken_before_transitive(
                                table,
                                order[i] as int,
                                earlier as int,
                                j as int,
                            );
                        }
                    }
                }
                return at;
            },
        }
        at = at - 1;
    }
    at
}

/// The positions in `names` of the frames, in the order in which the scan
/// takes them: every name with the extension `png` once, sorted by name.
/// Files of other kinds are left out.
pub fn frame_order(names: &Vec<Vec<u8>>) -> (order: Vec<usize>)
    ensures
        is_frame_order(name_table(names@), order@),
        order@.len() <= names@.len(),
{
    let ghost table = name_table(names@);
    let mut order: Vec<usize> = Vec::new();
    let mut j: usize = 0;
    while j < names.len()
        invariant
            j <= names.len(),
            order.len() <= j,
            table == name_table(names@),
            forall|i: int|
                0 <= i < order.len() ==> (#[trigger] order[i]) < j && is_frame_name(
                    table[order[i] as int],
                ),
            forall|p: int|
                0 <= p < j && is_frame_name(#[trigger] table[p]) ==> exists|i: int|
                    0 <= i < order.len() && #[trigger] order[i] == p,
            forall|i: int, k: int|
                0 <= i < k < order.len() ==> taken_before(
                    table,
                    #[trigger] order[i] as int,
                    #[trigger] order[k] as int,
                ),
        decreases names.len() - j,
    {
        if has_frame_extension(names[j].as_slice()) {
            let at: usize = insertion_point(names, &order, j);
            let ghost before = order@;
            order.insert(at, j);
            proof {
                let after = order@;
                assert(after.len() == before.len() + 1);
                assert(after[at as int] == j);
                assert forall|i: int| 0 <= i < at implies after[i] == before[i] by {}
                assert forall|i: int| at < i < after.len() implies after[i] == before[i - 1] by {}
                assert forall|p: int| 0 <= p < j + 1 && is_frame_name(#[trigger] table[p]) implies exists|
                    i: int,
                | 0 <= i < after.len() && #[trigger] after[i] == p by {
                    if p == j {
                        assert(after[at as int] == p);
                    } else {
                        let i0 = choose|i: int| 0 <= i < before.len() && #[trigger] before[i] == p;
                        if i0 < at {
                            assert(after[i0] == p);
                        } else {
                            assert(after[i0 + 1] == p);
                        }
                    }
                }
                assert forall|i: int, k: int| 0 <= i < k < after.len() implies taken_before(
                    table,
                    #[trigger] after[i] as int,
                    #[trigger] after[k] as int,
                ) by {
                    if k < at {
                        assert(after[i] == before[i] && after[k] == before[k]);
                    } else if k == at {
                        assert(after[i] == before[i]);
                    } else if i < at {
                        assert(after[i] == before[i] && after[k] == before[k - 1]);
                    } else if i == at {
                        assert(after[k] == before[k - 1]);
                    } else {
                        assert(after[i] == before[i - 1] && after[k] == before[k - 1]);
                    }
                }
            }
        }
        j = j + 1;
    }
    order
}

/// The lexicographic order is transitive.
pub proof fn lemma_name_before_transitive(a: Seq<u8>, b: Seq<u8>, c: Seq<u8>)
    requires
        name_before(a, b),
        name_before(b, c),
    ensures
        name_before(a, c),
{
    let k1 = choose|k: int| first_difference_favours(a, b, k);
    let k2 = choose|k: int| first_difference_favours(b, c, k);
    let k = if k1 <= k2 {
        k1
    } else {
        k2
    };
    assert(a.take(k) =~= c.take(k)) by {
        assert forall|j: int| 0 <= j < k implies a[j] == c[j] by {
            assert(a.take(k1)[j] == b.take(k1)[j]);
            assert(b.take(k2)[j] == c.take(k2)[j]);
        }
    }
    if k1 < k2 {
        assert(b.take(k2)[k1] == c.take(k2)[k1]);
    } else if k2 < k1 {
        assert(a.take(k1)[k2] == b.take(k1)[k2]);
    }
    assert(first_difference_favours(a, c, k));
}

/// The order in which the scan takes the files is transitive.
pub proof fn lemma_taken_before_transitive(names: Seq<Seq<u8>>, p: int, q: int, r: int)
    requires
        taken_before(names, p, q),
        taken_before(names, q, r),
    ensures
        taken_before(names, p, r),
{
    if name_before(names[p], names[q]) && name_before(names[q], names[r]) {
        lemma_name_before_transitive(names[p], names[q], names[r]);
    }
}

/// No file is taken before itself, and of two files at most one is taken
/// before the other.
pub proof fn lemma_taken_before_is_strict(names: Seq<Seq<u8>>, p: int, q: int)
    ensures
        !taken_before(names, p, p),
        !(taken_before(names, p, q) && taken_before(names, q, p)),
{
    assert forall|a: Seq<u8>, k: int| !first_difference_favours(a, a, k) by {}
    if taken_before(names, p, q) && taken_before(names, q, p) {
        lemma_taken_before_transitive(names, p, q, p);
    }
}

proof fn lemma_frame_orders_agree_up_to(
    names: Seq<Seq<u8>>,
    first: Seq<usize>,
    second: Seq<usize>,
    n: int,
)
    requires
        is_frame_order(names, first),
        is_frame_order(names, second),
        0 <= n <= first.len(),
        n <= second.len(),
    ensures
        forall|i: int| 0 <= i < n ==> first[i] == second[i],
    decreases n,
{
    if n > 0 {
        lemma_frame_orders_agree_up_to(names, first, second, n - 1);
        let last = n - 1;
        let p = first[last] as int;
        let q = second[last] as int;
        assert(is_frame_name(names[p]));
        assert(is_frame_name(names[q]));
        let in_second = choose|i: int| 0 <= i < second.len() && #[trigger] second[i] == p;
        let in_first = choose|i: int| 0 <= i < first.len() && #[trigger] first[i] == q;
        lemma_taken_before_is_strict(names, p, q);
        if in_second < last {
            assert(taken_before(names, first[in_second] as int, first[last] as int));
        } else if in_first < last {
            assert(taken_before(names, second[in_first] as int, second[last] as int));
        } else if in_second > last && in_first > last {
            assert(taken_before(names, second[last] as int, second[in_second] as int));
            assert(taken_before(names, first[last] as int, first[in_first] as int));
        }
    }
}

/// There is one order in which the scan takes the frames of a listing.
pub proof fn lemma_frame_order_unique(names: Seq<Seq<u8>>, first: Seq<usize>, second: Seq<usize>)
    requires
        is_frame_order(names, first),
        is_frame_order(names, second),
    ensures
        first == second,
{
    let n = if first.len() <= second.len() {
        first.len() as int
    } else {
        second.len() as int
    };
    lemma_frame_orders_agree_up_to(names, first, second, n);
    if n < second.len() {
        let p = second[n] as int;
        assert(is_frame_name(names[p]));
        let i = choose|i: int| 0 <= i < first.len() && #[trigger] first[i] == p;
        lemma_taken_before_is_strict(names, p, p);
        assert(taken_before(names, second[i] as int, second[n] as int));
    }
    if n < first.len() {
        let p = first[n] as int;
        assert(is_frame_name(names[p]));
        let i = choose|i: int| 0 <= i < second.len() && #[trigger] second[i] == p;
        lemma_taken_before_is_strict(names, p, p);
        assert(taken_before(names, first[i] as int, first[n] as int));
    }
    assert(first =~= second);
}

/// The bytes of `frame_`, with which the name of every extracted frame
/// begins.
pub open spec fn frame_prefix() -> Seq<u8> {
    seq![0x66u8, 0x72u8, 0x61u8, 0x6du8, 0x65u8, 0x5fu8]
}

/// The byte of the decimal digit `d`.
pub open spec fn digit_byte(d: nat) -> u8
    recommends
        d < 10,
{
    (0x30 + d) as u8
}

/// The name of an extracted frame whose number has the four decimal digits
/// `d3`, `d2`, `d1` and `d0`: `frame_`, the digits, and `.png`.
pub open spec fn name_with_digits(d3: nat, d2: nat, d1: nat, d0: nat) -> Seq<u8> {
    frame_prefix() + seq![digit_byte(d3), digit_byte(d2), digit_byte(d1), digit_byte(d0)]
        + frame_suffix()
}

/// The name of the extracted frame with the number `ordinal`, which four
/// digits hold.
pub open spec fn numbered_frame_name(ordinal: nat) -> Seq<u8>
    recommends
        ordinal <= 9999,
{
    name_with_digits(ordinal / 1000 % 10, ordinal / 100 % 10, ordinal / 10 % 10, ordinal % 10)
}

proof fn lemma_four_digits(n: nat)
    requires
        n <= 9999,
    ensures
        n == 1000 * (n / 1000 % 10) + 100 * (n / 100 % 10) + 10 * (n / 10 % 10) + n % 10,
        n / 1000 % 10 < 10,
        n / 100 % 10 < 10,
        n / 10 % 10 < 10,
        n % 10 < 10,
{
    let tens = n / 10;
    let hundreds = n / 100;
    let thousands = n / 1000;
    assert(tens / 10 == hundreds);
    assert(hundreds / 10 == thousands);
}

proof fn lemma_names_with_digits_in_order(a: Seq<nat>, b: Seq<nat>, k: int)
    requires
        a.len() == 4,
        b.len() == 4,
        forall|i: int| 0 <= i < 4 ==> a[i] < 10 && b[i] < 10,
        0 <= k < 4,
        forall|i: int| 0 <= i < k ==> a[i] == b[i],
        a[k] < b[k],
    ensures
        name_before(
            name_with_digits(a[0], a[1], a[2], a[3]),
            name_with_digits(b[0], b[1], b[2], b[3]),
        ),
{
    let x = name_with_digits(a[0], a[1], a[2], a[3]);
    let y = name_with_digits(b[0], b[1], b[2], b[3]);
    assert(x.len() == 14 && y.len() == 14);
    assert forall|i: int| 0 <= i < 6 implies x[i] == y[i] by {
        assert(x[i] == frame_prefix()[i]);
        assert(y[i] == frame_prefix()[i]);
    }
    assert forall|i: int| 0 <= i < 4 implies x[6 + i] == digit_byte(a[i]) && y[6 + i] == digit_byte(
        b[i],
    ) by {}
    assert(x.take(6 + k) =~= y.take(6 + k)) by {
        assert forall|i: int| 0 <= i < 6 + k implies x[i] == y[i] by {
            if i >= 6 {
                assert(x[6 + (i - 6)] == digit_byte(a[i - 6]));
                assert(y[6 + (i - 6)] == digit_byte(b[i - 6]));
            }
        }
    }
    assert(x[6 + k] == digit_byte(a[k]) && y[6 + k] == digit_byte(b[k]));
    assert(first_difference_favours(x, y, 6 + k));
}

/// The name of every extracted frame has the extension `png`.
pub proof fn lemma_numbered_frame_is_frame(ordinal: nat)
    ensures
        is_frame_name(numbered_frame_name(ordinal)),
{
    let name = numbered_frame_name(ordinal);
    assert(name.len() == 14);
    assert(name.skip(10) =~= frame_suffix());
}

/// As long as four digits hold the numbers, the scan takes the extracted
/// frames in the order of their numbers.
pub proof fn lemma_numbered_frames_in_order(earlier: nat, later: nat)
    requires
        earlier < later <= 9999,
    ensures
        name_before(numbered_frame_name(earlier), numbered_frame_name(later)),
{
    lemma_four_digits(earlier);
    lemma_four_digits(later);
    let a = seq![earlier / 1000 % 10, earlier / 100 % 10, earlier / 10 % 10, earlier % 10];
    let b = seq![later / 1000 % 10, later / 100 % 10, later / 10 % 10, later % 10];
    let k: int = if a[0] != b[0] {
        0
    } else if a[1] != b[1] {
        1
    } else if a[2] != b[2] {
        2
    } else {
        3
    };
    lemma_names_with_digits_in_order(a, b, k);
}

} // verus!
