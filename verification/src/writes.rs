use vstd::prelude::*;

verus! {

/// Contents of an output file after a positional write of `data` at byte
/// offset `start`: the written range takes `data`, untouched bytes keep
/// their value, the file grows as needed, and any gap between the old end
/// and `start` reads as zero.
pub open spec fn write_at(file: Seq<u8>, start: nat, data: Seq<u8>) -> Seq<u8> {
    let newlen = if file.len() >= start + data.len() {
        file.len() as int
    } else {
        (start + data.len()) as int
    };
    Seq::new(
        newlen as nat,
        |i: int|
            if start <= i < start + data.len() {
                data[i - start]
            } else if i < file.len() {
                file[i]
            } else {
                0u8
            },
    )
}

/// Positional write correctness: two writes to disjoint ranges of the same
/// file land the same bytes in either order, and after both, every offset of
/// each range holds its own chunk's byte.
pub proof fn lemma_disjoint_writes_commute(
    file: Seq<u8>,
    s1: nat,
    d1: Seq<u8>,
    s2: nat,
    d2: Seq<u8>,
)
    requires
        s1 + d1.len() <= s2 || s2 + d2.len() <= s1,
    ensures
        write_at(write_at(file, s1, d1), s2, d2) == write_at(write_at(file, s2, d2), s1, d1),
        forall|k: int|
            0 <= k < d1.len() ==> write_at(write_at(file, s1, d1), s2, d2)[s1 + k] == d1[k],
        forall|k: int|
            0 <= k < d2.len() ==> write_at(write_at(file, s1, d1), s2, d2)[s2 + k] == d2[k],
{
    assert(write_at(write_at(file, s1, d1), s2, d2) =~= write_at(
        write_at(file, s2, d2),
        s1,
        d1,
    ));
}

/// Applies one chunk's positional write to an in-memory file image, exactly
/// as the write model says.
pub fn write_chunk_at(file: &mut Vec<u8>, start: usize, data: &[u8])
    requires
        start + data@.len() <= usize::MAX,
    ensures
        final(file)@ == write_at(old(file)@, start as nat, data@),
{
    let needed: usize = start + data.len();
    while file.len() < needed
        invariant
            file@.len() >= old(file)@.len(),
            file@.len() <= needed || file@.len() == old(file)@.len(),
            forall|i: int| 0 <= i < old(file)@.len() ==> #[trigger] file@[i] == old(file)@[i],
            forall|i: int| old(file)@.len() <= i < file@.len() ==> #[trigger] file@[i] == 0u8,
        decreases needed - file@.len(),
    {
        file.push(0);
    }
    let mut k: usize = 0;
    while k < data.len()
        invariant
            k <= data@.len(),
            start + data@.len() <= usize::MAX,
            file@.len() >= old(file)@.len(),
            file@.len() >= start + data@.len(),
            file@.len() == if old(file)@.len() >= start + data@.len() {
                old(file)@.len() as int
            } else {
                start + data@.len()
            },
            forall|i: int|
                0 <= i < file@.len() && !(start <= i < start + k) ==> #[trigger] file@[i] == (
                if i < old(file)@.len() {
                    old(file)@[i]
                } else {
                    0u8
                }),
            forall|i: int|
                start <= i < start + k ==> #[trigger] file@[i] == data@[i - start],
        decreases data@.len() - k,
    {
        file[start + k] = data[k];
        k = k + 1;
    }
    proof {
        assert(file@ =~= write_at(old(file)@, start as nat, data@));
    }
}

} // verus!
