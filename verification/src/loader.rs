//! The application registry: the programs that are linked into the kernel image,
//! by number and by name.
//!
//! The image holds a table of words, the number `n` of applications followed by
//! `n + 1` byte positions: application `i` is the bytes from position `i` up to
//! position `i + 1`. The first position is that of the first byte of the image.
//! The image also holds the `n` names, in the same order, each ended by a NUL
//! byte.

use vstd::prelude::*;
use vstd::string::StringSliceAdditionalSpecFns;

verus! {

/// Index of the first NUL byte of `bytes` at or after `from`, or the length of
/// `bytes` if there is none.
pub open spec fn name_end(bytes: Seq<u8>, from: int) -> int
    decreases bytes.len() - from,
{
    if from >= bytes.len() {
        bytes.len() as int
    } else if bytes[from] == 0 {
        from
    } else {
        name_end(bytes, from + 1)
    }
}

/// The `n` names that `bytes` holds from index `from` on, each without the NUL
/// byte that ends it; nothing if `bytes` ends before the last of them does.
pub open spec fn spec_app_names(bytes: Seq<u8>, from: int, n: nat) -> Option<Seq<Seq<u8>>>
    decreases n,
{
    if n == 0 {
        Some(Seq::empty())
    } else {
        let end = name_end(bytes, from);
        if end >= bytes.len() {
            None
        } else {
            match spec_app_names(bytes, end + 1, (n - 1) as nat) {
                Some(rest) => Some(seq![bytes.subrange(from, end)] + rest),
                None => None,
            }
        }
    }
}

/// Whether `table` is the table of an image of `data_len` bytes: it starts with
/// the number `n` of applications, `n + 1` positions follow, none of them
/// smaller than the one before, and the last one is at most `data_len` beyond
/// the first.
pub open spec fn table_valid(table: Seq<usize>, data_len: nat) -> bool {
    &&& table.len() >= 1
    &&& table.len() >= table[0] + 2
    &&& forall|i: int| 1 <= i <= table[0] ==> #[trigger] table[i] <= table[i + 1]
    &&& table[table[0] + 1] - table[1] <= data_len
}

/// The byte sequences that a sequence of slices holds.
pub open spec fn views(slices: Seq<&[u8]>) -> Seq<Seq<u8>> {
    Seq::new(slices.len(), |i: int| slices[i]@)
}

/// A name ends at `end` if a NUL byte is there, or `bytes` ends there, and no
/// byte from `from` up to there is NUL.
pub proof fn lemma_name_end_unique(bytes: Seq<u8>, from: int, end: int)
    requires
        0 <= from <= end <= bytes.len(),
        end < bytes.len() ==> bytes[end] == 0,
        forall|j: int| from <= j < end ==> bytes[j] != 0,
    ensures
        name_end(bytes, from) == end,
    decreases end - from,
{
    if from < end {
        lemma_name_end_unique(bytes, from + 1, end);
    }
}

/// The applications of a kernel image.
pub struct AppRegistry<'a> {
    /// The positions at which the applications start, and, last, the position at
    /// which the last one ends.
    pub app_start: &'a [usize],
    /// The names of the applications.
    pub names: Vec<&'a [u8]>,
    /// The bytes of the image.
    pub data: &'a [u8],
}

impl<'a> AppRegistry<'a> {
    /// There is one more position than there are names, none is smaller than
    /// the one before, and the last one is within the image.
    pub open spec fn wf(&self) -> bool {
        &&& self.app_start@.len() == self.names@.len() + 1
        &&& forall|i: int|
            0 <= i < self.names@.len() ==> #[trigger] self.app_start@[i] <= self.app_start@[i + 1]
        &&& self.app_start@[self.names@.len() as int] - self.app_start@[0] <= self.data@.len()
    }

    /// The number of applications.
    pub open spec fn num_app(&self) -> nat {
        self.names@.len()
    }

    /// The name of application `app_id`.
    pub open spec fn name(&self, app_id: int) -> Seq<u8> {
        self.names@[app_id]@
    }

    /// The bytes of application `app_id`.
    pub open spec fn app_data(&self, app_id: int) -> Seq<u8> {
        self.data@.subrange(
            self.app_start@[app_id] - self.app_start@[0],
            self.app_start@[app_id + 1] - self.app_start@[0],
        )
    }

    /// The number of the first application with the name `name`, if there is
    /// one.
    pub open spec fn position(&self, name: Seq<u8>) -> Option<int> {
        views(self.names@).index_of_first(name)
    }

    /// Reads the registry of an image: `table` is its table of words, `names`
    /// the bytes that hold the names, and `data` the bytes of the applications,
    /// from the first position on. Yields nothing if the table is not valid for
    /// `data` or `names` ends before the last name does.
    #[verifier::loop_isolation(false)]
    #[verifier::rlimit(30)]
    pub fn new(table: &'a [usize], names: &'a [u8], data: &'a [u8]) -> (r: Option<AppRegistry<'a>>)
        ensures
            r is Some <==> table_valid(table@, data@.len()) && spec_app_names(
                names@,
                0,
                table@[0] as nat,
            ) is Some,
            r matches Some(registry) ==> registry.wf() && registry.data@ == data@
                && registry.app_start@ == table@.subrange(1, table@[0] + 2) && Some(
                views(registry.names@),
            ) == spec_app_names(names@, 0, table@[0] as nat),
    {
        if table.len() < 1 {
            return None;
        }
        let num_app: usize = table[0];
        if table.len() - 1 <= num_app {
            return None;
        }
        let mut i: usize = 1;
        while i <= num_app
            invariant
                1 <= i <= num_app + 1,
                num_app == table@[0],
                table@.len() >= num_app + 2,
                forall|j: int| 1 <= j < i ==> #[trigger] table@[j] <= table@[j + 1],
            decreases num_app + 1 - i,
        {
            if table[i] > table[i + 1] {
                return None;
            }
            i += 1;
        }
        proof {
            lemma_positions_ordered(table@, 1, num_app + 1);
        }
        if table[num_app + 1] - table[1] > data.len() {
            return None;
        }
        let mut found: Vec<&'a [u8]> = Vec::new();
        let mut start: usize = 0;
        let mut k: usize = 0;
        while k < num_app
            invariant
                k <= num_app,
                start <= names@.len(),
                found@.len() == k,
                spec_app_names(names@, 0, num_app as nat) == match spec_app_names(
                    names@,
                    start as int,
                    (num_app - k) as nat,
                ) {
                    Some(rest) => Some(views(found@) + rest),
                    None => None,
                },
            decreases num_app - k,
        {
            let mut end: usize = start;
            while end < names.len() && names[end] != 0
                invariant
                    start <= end <= names@.len(),
                    forall|j: int| start <= j < end ==> names@[j] != 0,
                decreases names@.len() - end,
            {
                end += 1;
            }
            proof {
                lemma_name_end_unique(names@, start as int, end as int);
            }
            if end >= names.len() {
                return None;
            }
            let name: &'a [u8] = &names[start..end];
            let ghost before = views(found@);
            found.push(name);
            proof {
                assert(views(found@) =~= before.push(names@.subrange(start as int, end as int)));
                match spec_app_names(names@, end + 1, (num_app - k - 1) as nat) {
                    Some(rest) => {
                        assert(before + (seq![names@.subrange(start as int, end as int)] + rest)
                            =~= views(found@) + rest);
                    },
                    None => {},
                }
            }
            start = end + 1;
            k += 1;
        }
        let app_start: &'a [usize] = &table[1..num_app + 2];
        proof {
            assert(views(found@) + Seq::<Seq<u8>>::empty() =~= views(found@));
            assert forall|j: int| 0 <= j < found@.len() implies #[trigger] app_start@[j]
                <= app_start@[j + 1] by {
                assert(table@[j + 1] <= table@[j + 2]);
            }
        }
        Some(AppRegistry { app_start, names: found, data })
    }
}

/// The number of applications in `registry`.
pub fn get_num_app(registry: &AppRegistry) -> (n: usize)
    ensures
        n == registry.num_app(),
{
    registry.names.len()
}

/// The bytes of application `app_id` of `registry`.
pub fn get_app_data<'a>(registry: &AppRegistry<'a>, app_id: usize) -> (data: &'a [u8])
    requires
        registry.wf(),
        app_id < registry.num_app(),
    ensures
        data@ == registry.app_data(app_id as int),
{
    let num_app: usize = get_num_app(registry);
    proof {
        lemma_positions_ordered(registry.app_start@, 0, app_id as int);
        lemma_positions_ordered(registry.app_start@, app_id as int + 1, num_app as int);
    }
    let base: usize = registry.app_start[0];
    let from: usize = registry.app_start[app_id] - base;
    let to: usize = registry.app_start[app_id + 1] - base;
    &registry.data[from..to]
}

/// Where no position is smaller than the one before, an earlier one is not
/// larger than a later one.
pub proof fn lemma_positions_ordered(positions: Seq<usize>, i: int, j: int)
    requires
        0 <= i <= j < positions.len(),
        forall|k: int| i <= k < j ==> #[trigger] positions[k] <= positions[k + 1],
    ensures
        positions[i] <= positions[j],
    decreases j - i,
{
    if i < j {
        lemma_positions_ordered(positions, i + 1, j);
    }
}

/// Whether `a` and `b` hold the same bytes.
pub fn same_bytes(a: &[u8], b: &[u8]) -> (r: bool)
    ensures
        r == (a@ == b@),
{
    if a.len() != b.len() {
        return false;
    }
    let mut i: usize = 0;
    while i < a.len()
        invariant
            i <= a@.len(),
            a@.len() == b@.len(),
            forall|j: int| 0 <= j < i ==> a@[j] == b@[j],
        decreases a@.len() - i,
    {
        if a[i] != b[i] {
            return false;
        }
        i += 1;
    }
    assert(a@ =~= b@);
    true
}

/// The bytes of the first application of `registry` with the name `name`, or
/// nothing if no application has that name.
#[verifier::loop_isolation(false)]
pub fn get_app_data_by_name<'a>(registry: &AppRegistry<'a>, name: &str) -> (r: Option<&'a [u8]>)
    requires
        registry.wf(),
    ensures
        r is Some <==> registry.position(name.spec_bytes()) is Some,
        r matches Some(data) ==> data@ == registry.app_data(
            registry.position(name.spec_bytes())->0,
        ),
{
    let num_app: usize = get_num_app(registry);
    let wanted: &[u8] = name.as_bytes();
    let ghost all = views(registry.names@);
    proof {
        all.index_of_first_ensures(wanted@);
    }
    let mut i: usize = 0;
    while i < num_app
        invariant
            i <= num_app,
            num_app == registry.names@.len(),
            all == views(registry.names@),
            forall|j: int| 0 <= j < i ==> all[j] != wanted@,
        decreases num_app - i,
    {
        if same_bytes(registry.names[i], wanted) {
            assert(all[i as int] == wanted@);
            return Some(get_app_data(registry, i));
        }
        i += 1;
    }
    None
}

} // verus!
