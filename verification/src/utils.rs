//! Work-set items and the even frame sampler.

use vstd::prelude::*;

use base64::Engine;

verus! {

/// How many items the sampler returns when `k` samples are requested from a
/// list of `n` items: `k` when the list is long enough, all `n` otherwise.
pub open spec fn sample_count(n: nat, k: nat) -> nat {
    if k <= n {
        k
    } else {
        n
    }
}

/// The index of the `i`-th sample when `k` samples are drawn evenly from `n`
/// items: the floor of `i * n / k`. When fewer items than requested exist,
/// every item is its own sample.
pub open spec fn sample_index(n: nat, k: nat, i: nat) -> nat
    recommends
        0 < k,
{
    if k <= n {
        (i * n) / k
    } else {
        i
    }
}

proof fn lemma_sample_index_self(n: nat, i: nat)
    requires
        0 < n,
        i < n,
    ensures
        (i * n) / n == i,
{
    assert((i * n) / n == i) by (nonlinear_arith)
        requires
            0 < n,
    ;
}

proof fn lemma_sample_index_in_range(n: nat, k: nat, i: nat)
    requires
        0 < k,
        i < sample_count(n, k),
    ensures
        sample_index(n, k, i) < n,
{
    if k <= n {
        assert((i * n) / k < n) by (nonlinear_arith)
            requires
                0 < k <= n,
                i < k,
        ;
    }
}

/// The indices at which `k` evenly spaced samples are taken from `n` items.
pub fn sample_indices(n: usize, k: usize) -> (r: Vec<usize>)
    ensures
        r@.len() == if k == 0 || n == 0 {
            0nat
        } else {
            sample_count(n as nat, k as nat)
        },
        forall|i: int|
            0 <= i < r@.len() ==> r@[i] == sample_index(n as nat, k as nat, i as nat) && r@[i] < n,
{
    let mut r: Vec<usize> = Vec::new();
    if n == 0 || k == 0 {
        return r;
    }
    if k >= n {
        let mut i: usize = 0;
        while i < n
            invariant
                i <= n <= k,
                r@.len() == i,
                forall|j: int| 0 <= j < i ==> r@[j] == j,
            decreases n - i,
        {
            r.push(i);
            i = i + 1;
        }
        proof {
            assert forall|j: int| 0 <= j < r@.len() implies r@[j] == sample_index(
                n as nat,
                k as nat,
                j as nat,
            ) && r@[j] < n by {
                if k == n {
                    lemma_sample_index_self(n as nat, j as nat);
                }
            }
        }
        r
    } else {
        let mut i: usize = 0;
        while i < k
            invariant
                0 < k < n,
                i <= k,
                r@.len() == i,
                forall|j: int|
                    0 <= j < i ==> r@[j] == sample_index(n as nat, k as nat, j as nat) && r@[j] < n,
            decreases k - i,
        {
            proof {
                lemma_sample_index_in_range(n as nat, k as nat, i as nat);
                assert((i as u128) * (n as u128) <= u64::MAX as u128 * u64::MAX as u128)
                    by (nonlinear_arith)
                    requires
                        i as u128 <= u64::MAX as u128,
                        n as u128 <= u64::MAX as u128,
                ;
            }
            let idx_wide: u128 = (i as u128) * (n as u128) / (k as u128);
            let idx: usize = idx_wide as usize;
            r.push(idx);
            i = i + 1;
        }
        r
    }
}

/// Evenly sample `sample_size` items from `list`, returning the cloned items
/// together with the indices they were taken from.
pub fn sample_evenly<T: Clone>(list: &Vec<T>, sample_size: usize) -> (r: (Vec<T>, Vec<usize>))
    ensures
        r.1@.len() == if sample_size == 0 || list@.len() == 0 {
            0nat
        } else {
            sample_count(list@.len(), sample_size as nat)
        },
        forall|i: int|
            0 <= i < r.1@.len() ==> r.1@[i] == sample_index(
                list@.len(),
                sample_size as nat,
                i as nat,
            ) && r.1@[i] < list@.len(),
        r.0@.len() == r.1@.len(),
        forall|i: int| 0 <= i < r.0@.len() ==> cloned::<T>(list@[r.1@[i] as int], r.0@[i]),
{
    let indices = sample_indices(list.len(), sample_size);
    let mut items: Vec<T> = Vec::new();
    let mut i: usize = 0;
    while i < indices.len()
        invariant
            i <= indices@.len(),
            items@.len() == i,
            forall|j: int| 0 <= j < indices@.len() ==> indices@[j] < list@.len(),
            forall|j: int| 0 <= j < i ==> cloned::<T>(list@[indices@[j] as int], items@[j]),
        decreases indices@.len() - i,
    {
        items.push(list[indices[i]].clone());
        i = i + 1;
    }
    (items, indices)
}

/// A discovered media file: stable identifiers assigned in walk order plus
/// the source path and the staging path (equal to the source path unless the
/// file was staged).
pub struct FileItem {
    pub folder_id: usize,
    pub file_id: usize,
    pub file_path: Vec<u8>,
    pub tmp_path: Vec<u8>,
}

/// The mathematical value of a `FileItem`.
pub struct FileItemV {
    pub folder_id: nat,
    pub file_id: nat,
    pub file_path: Seq<u8>,
    pub tmp_path: Seq<u8>,
}

impl View for FileItem {
    type V = FileItemV;

    open spec fn view(&self) -> FileItemV {
        FileItemV {
            folder_id: self.folder_id as nat,
            file_id: self.file_id as nat,
            file_path: self.file_path@,
            tmp_path: self.tmp_path@,
        }
    }
}

impl Clone for FileItem {
    fn clone(&self) -> (r: Self)
        ensures
            r@ == self@,
    {
        FileItem {
            folder_id: self.folder_id,
            file_id: self.file_id,
            file_path: clone_bytes(&self.file_path),
            tmp_path: clone_bytes(&self.tmp_path),
        }
    }
}

impl FileItem {
    /// Build a `FileItem`; when no staging path is given the staging path is
    /// the source path itself.
    pub fn new(folder_id: usize, file_id: usize, file_path: Vec<u8>, tmp_path: Option<Vec<u8>>) -> (r:
        Self)
        ensures
            r@.folder_id == folder_id,
            r@.file_id == file_id,
            r@.file_path == file_path@,
            r@.tmp_path == match tmp_path {
                Some(t) => t@,
                None => file_path@,
            },
    {
        match tmp_path {
            Some(tmp_path) => Self { folder_id, file_id, file_path, tmp_path },
            None => {
                let tmp_path = clone_bytes(&file_path);
                Self { folder_id, file_id, file_path, tmp_path }
            },
        }
    }
}

/// Copy a byte vector.
pub fn clone_bytes(v: &Vec<u8>) -> (r: Vec<u8>)
    ensures
        r@ == v@,
{
    let mut r: Vec<u8> = Vec::new();
    let mut i: usize = 0;
    while i < v.len()
        invariant
            i <= v@.len(),
            r@ == v@.subrange(0, i as int),
        decreases v@.len() - i,
    {
        r.push(v[i]);
        i = i + 1;
    }
    proof {
        assert(r@ =~= v@);
    }
    r
}

/// Byte-vector equality.
pub fn bytes_eq(a: &Vec<u8>, b: &Vec<u8>) -> (r: bool)
    ensures
        r == (a@ == b@),
{
    if a.len() != b.len() {
        proof {
            assert(a@.len() != b@.len());
        }
        return false;
    }
    let mut i: usize = 0;
    while i < a.len()
        invariant
            a@.len() == b@.len(),
            i <= a@.len(),
            forall|j: int| 0 <= j < i ==> a@[j] == b@[j],
        decreases a@.len() - i,
    {
        if a[i] != b[i] {
            return false;
        }
        i = i + 1;
    }
    proof {
        assert(a@ =~= b@);
    }
    true
}


/// The text `Animal`.
pub open spec fn lit_animal() -> Seq<u8> {
    seq![65u8, 110u8, 105u8, 109u8, 97u8, 108u8]
}

pub fn lit_animal_vec() -> (r: Vec<u8>)
    ensures
        r@ == lit_animal(),
{
    let mut r: Vec<u8> = Vec::new();
    r.push(65u8);
    r.push(110u8);
    r.push(105u8);
    r.push(109u8);
    r.push(97u8);
    r.push(108u8);
    proof {
        assert(r@ =~= lit_animal());
    }
    r
}

/// The text `Person`.
pub open spec fn lit_person() -> Seq<u8> {
    seq![80u8, 101u8, 114u8, 115u8, 111u8, 110u8]
}

pub fn lit_person_vec() -> (r: Vec<u8>)
    ensures
        r@ == lit_person(),
{
    let mut r: Vec<u8> = Vec::new();
    r.push(80u8);
    r.push(101u8);
    r.push(114u8);
    r.push(115u8);
    r.push(111u8);
    r.push(110u8);
    proof {
        assert(r@ =~= lit_person());
    }
    r
}

/// The text `Vehicle`.
pub open spec fn lit_vehicle() -> Seq<u8> {
    seq![86u8, 101u8, 104u8, 105u8, 99u8, 108u8, 101u8]
}

pub fn lit_vehicle_vec() -> (r: Vec<u8>)
    ensures
        r@ == lit_vehicle(),
{
    let mut r: Vec<u8> = Vec::new();
    r.push(86u8);
    r.push(101u8);
    r.push(104u8);
    r.push(105u8);
    r.push(99u8);
    r.push(108u8);
    r.push(101u8);
    proof {
        assert(r@ =~= lit_vehicle());
    }
    r
}

/// The text `Blank`.
pub open spec fn lit_blank() -> Seq<u8> {
    seq![66u8, 108u8, 97u8, 110u8, 107u8]
}

pub fn lit_blank_vec() -> (r: Vec<u8>)
    ensures
        r@ == lit_blank(),
{
    let mut r: Vec<u8> = Vec::new();
    r.push(66u8);
    r.push(108u8);
    r.push(97u8);
    r.push(110u8);
    r.push(107u8);
    proof {
        assert(r@ =~= lit_blank());
    }
    r
}

/// The text `result.csv`.
pub open spec fn lit_result_csv() -> Seq<u8> {
    seq![114u8, 101u8, 115u8, 117u8, 108u8, 116u8, 46u8, 99u8, 115u8, 118u8]
}

pub fn lit_result_csv_vec() -> (r: Vec<u8>)
    ensures
        r@ == lit_result_csv(),
{
    let mut r: Vec<u8> = Vec::new();
    r.push(114u8);
    r.push(101u8);
    r.push(115u8);
    r.push(117u8);
    r.push(108u8);
    r.push(116u8);
    r.push(46u8);
    r.push(99u8);
    r.push(115u8);
    r.push(118u8);
    proof {
        assert(r@ =~= lit_result_csv());
    }
    r
}

/// The text `result.json`.
pub open spec fn lit_result_json() -> Seq<u8> {
    seq![114u8, 101u8, 115u8, 117u8, 108u8, 116u8, 46u8, 106u8, 115u8, 111u8, 110u8]
}

pub fn lit_result_json_vec() -> (r: Vec<u8>)
    ensures
        r@ == lit_result_json(),
{
    let mut r: Vec<u8> = Vec::new();
    r.push(114u8);
    r.push(101u8);
    r.push(115u8);
    r.push(117u8);
    r.push(108u8);
    r.push(116u8);
    r.push(46u8);
    r.push(106u8);
    r.push(115u8);
    r.push(111u8);
    r.push(110u8);
    proof {
        assert(r@ =~= lit_result_json());
    }
    r
}

/// The text `-----BEGIN CERTIFICATE-----\n`.
pub open spec fn lit_pem_header() -> Seq<u8> {
    seq![45u8, 45u8, 45u8, 45u8, 45u8, 66u8, 69u8, 71u8, 73u8, 78u8, 32u8, 67u8, 69u8, 82u8, 84u8, 73u8, 70u8, 73u8, 67u8, 65u8, 84u8, 69u8, 45u8, 45u8, 45u8, 45u8, 45u8, 10u8]
}

pub fn lit_pem_header_vec() -> (r: Vec<u8>)
    ensures
        r@ == lit_pem_header(),
{
    let mut r: Vec<u8> = Vec::new();
    r.push(45u8);
    r.push(45u8);
    r.push(45u8);
    r.push(45u8);
    r.push(45u8);
    r.push(66u8);
    r.push(69u8);
    r.push(71u8);
    r.push(73u8);
    r.push(78u8);
    r.push(32u8);
    r.push(67u8);
    r.push(69u8);
    r.push(82u8);
    r.push(84u8);
    r.push(73u8);
    r.push(70u8);
    r.push(73u8);
    r.push(67u8);
    r.push(65u8);
    r.push(84u8);
    r.push(69u8);
    r.push(45u8);
    r.push(45u8);
    r.push(45u8);
    r.push(45u8);
    r.push(45u8);
    r.push(10u8);
    proof {
        assert(r@ =~= lit_pem_header());
    }
    r
}

/// The text `-----END CERTIFICATE-----\n`.
pub open spec fn lit_pem_footer() -> Seq<u8> {
    seq![45u8, 45u8, 45u8, 45u8, 45u8, 69u8, 78u8, 68u8, 32u8, 67u8, 69u8, 82u8, 84u8, 73u8, 70u8, 73u8, 67u8, 65u8, 84u8, 69u8, 45u8, 45u8, 45u8, 45u8, 45u8, 10u8]
}

pub fn lit_pem_footer_vec() -> (r: Vec<u8>)
    ensures
        r@ == lit_pem_footer(),
{
    let mut r: Vec<u8> = Vec::new();
    r.push(45u8);
    r.push(45u8);
    r.push(45u8);
    r.push(45u8);
    r.push(45u8);
    r.push(69u8);
    r.push(78u8);
    r.push(68u8);
    r.push(32u8);
    r.push(67u8);
    r.push(69u8);
    r.push(82u8);
    r.push(84u8);
    r.push(73u8);
    r.push(70u8);
    r.push(73u8);
    r.push(67u8);
    r.push(65u8);
    r.push(84u8);
    r.push(69u8);
    r.push(45u8);
    r.push(45u8);
    r.push(45u8);
    r.push(45u8);
    r.push(45u8);
    r.push(10u8);
    proof {
        assert(r@ =~= lit_pem_footer());
    }
    r
}

// ---------------------------------------------------------------------------
// Walking the tree.
/// One entry seen while walking the input tree, after pruning.
pub struct WalkEntry {
    pub name: Vec<u8>,
    pub path: Vec<u8>,
    pub is_dir: bool,
    pub is_file: bool,
}

/// The mathematical value of a walk entry.
pub struct WalkEntryV {
    pub name: Seq<u8>,
    pub path: Seq<u8>,
    pub is_dir: bool,
    pub is_file: bool,
}

impl View for WalkEntry {
    type V = WalkEntryV;

    open spec fn view(&self) -> WalkEntryV {
        WalkEntryV {
            name: self.name@,
            path: self.path@,
            is_dir: self.is_dir,
            is_file: self.is_file,
        }
    }
}

/// The mathematical values of a sequence of walk entries.
pub open spec fn entries_view(s: Seq<WalkEntry>) -> Seq<WalkEntryV> {
    s.map_values(|e: WalkEntry| e@)
}

/// A basename that is pruned from the walk: the exporter's own class
/// subtrees, hidden names, and the artifact files themselves.
pub open spec fn skip_name(n: Seq<u8>) -> bool {
    ||| n == lit_animal()
    ||| n == lit_person()
    ||| n == lit_vehicle()
    ||| n == lit_blank()
    ||| (n.len() > 0 && n[0] == 46)
    ||| n == lit_result_csv()
    ||| n == lit_result_json()
}

/// Whether a basename is pruned from the walk.
pub fn is_skip(name: &Vec<u8>) -> (r: bool)
    ensures
        r == skip_name(name@),
{
    let a = lit_animal_vec();
    let p = lit_person_vec();
    let v = lit_vehicle_vec();
    let b = lit_blank_vec();
    if bytes_eq(name, &a) || bytes_eq(name, &p) || bytes_eq(name, &v) || bytes_eq(name, &b) {
        return true;
    }
    if name.len() > 0 && name[0] == 46 {
        return true;
    }
    let rc = lit_result_csv_vec();
    let rj = lit_result_json_vec();
    bytes_eq(name, &rc) || bytes_eq(name, &rj)
}

/// How many directory entries the walk has entered.
pub open spec fn dir_count(entries: Seq<WalkEntryV>) -> nat
    decreases entries.len(),
{
    if entries.len() == 0 {
        0
    } else {
        dir_count(entries.drop_last()) + if entries.last().is_dir {
            1nat
        } else {
            0nat
        }
    }
}

/// The work items produced by a walk: each surviving media file gets the
/// count of directories entered before it as its folder identifier and the
/// count of files emitted before it as its file identifier.
pub open spec fn indexed_items(entries: Seq<WalkEntryV>) -> Seq<FileItemV>
    decreases entries.len(),
{
    if entries.len() == 0 {
        Seq::empty()
    } else {
        let prefix = entries.drop_last();
        let e = entries.last();
        let items = indexed_items(prefix);
        if !e.is_dir && e.is_file && crate::media::classify(e.path) != crate::media::MediaKind::Other {
            items.push(
                FileItemV {
                    folder_id: dir_count(prefix),
                    file_id: items.len(),
                    file_path: e.path,
                    tmp_path: e.path,
                },
            )
        } else {
            items
        }
    }
}

/// The mathematical values of a sequence of work items.
pub open spec fn work_view(s: Seq<FileItem>) -> Seq<FileItemV> {
    s.map_values(|it: FileItem| it@)
}

/// Assign stable identifiers to the media files of a pruned walk, in walk
/// order.
pub fn index_files_and_folders(entries: &Vec<WalkEntry>) -> (r: Vec<FileItem>)
    ensures
        work_view(r@) == indexed_items(entries_view(entries@)),
{
    let ghost eviews = entries_view(entries@);
    let mut r: Vec<FileItem> = Vec::new();
    let mut folder_id: usize = 0;
    let mut i: usize = 0;
    proof {
        assert(eviews.take(0) =~= Seq::<WalkEntryV>::empty());
        assert(work_view(r@) =~= Seq::<FileItemV>::empty());
    }
    while i < entries.len()
        invariant
            i <= entries@.len(),
            eviews == entries_view(entries@),
            folder_id == dir_count(eviews.take(i as int)),
            folder_id <= i,
            r@.len() <= i,
            work_view(r@) == indexed_items(eviews.take(i as int)),
        decreases entries@.len() - i,
    {
        let ghost old_work = work_view(r@);
        proof {
            let t1 = eviews.take(i as int + 1);
            assert(t1.drop_last() =~= eviews.take(i as int));
            assert(t1.last() == entries@[i as int]@);
        }
        let e = &entries[i];
        if e.is_dir {
            folder_id = folder_id + 1;
        } else if e.is_file {
            if crate::media::is_video_photo(&e.path) {
                let item = FileItem::new(folder_id, r.len(), clone_bytes(&e.path), None);
                r.push(item);
                proof {
                    assert(work_view(r@) =~= old_work.push(r@.last()@));
                }
            }
        }
        i = i + 1;
    }
    proof {
        assert(eviews.take(eviews.len() as int) =~= eviews);
    }
    r
}

/// Each indexed item's file identifier is its position: identifiers are
/// unique within one run.
pub proof fn lemma_index_ids_unique(entries: Seq<WalkEntryV>)
    ensures
        forall|k: int|
            0 <= k < indexed_items(entries).len() ==> (#[trigger] indexed_items(entries)[k]).file_id
                == k,
    decreases entries.len(),
{
    if entries.len() == 0 {
    } else {
        lemma_index_ids_unique(entries.drop_last());
        let prefix = entries.drop_last();
        let items = indexed_items(prefix);
        assert forall|k: int|
            0 <= k < indexed_items(entries).len() implies (#[trigger] indexed_items(
            entries,
        )[k]).file_id == k by {
            if k < items.len() {
                assert(indexed_items(entries)[k] == items[k]);
            }
        }
    }
}

// ---------------------------------------------------------------------------
// Certificates in text form.
/// What the standard base64 encoding of a byte string is. The value is
/// pinned down only by the encoder relied on below.
pub uninterp spec fn base64_of(s: Seq<u8>) -> Seq<u8>;

/// Relies on base64's standard engine (padded): the encoded text of the
/// input, four output bytes for every three input bytes. The bound keeps
/// the encoder's own size computation from overflowing.
#[verifier::external_body]
fn base64_encode(data: &Vec<u8>) -> (r: Vec<u8>)
    requires
        4 * ((data@.len() + 2) / 3) <= usize::MAX,
    ensures
        r@ == base64_of(data@),
        r@.len() == 4 * ((data@.len() + 2) / 3),
{
    base64::engine::general_purpose::STANDARD.encode(data).into_bytes()
}

/// The encoded text broken into lines of at most 64 bytes, each ended by a
/// newline; empty input yields no line.
pub open spec fn pem_lines(b: Seq<u8>) -> Seq<u8>
    decreases b.len(),
{
    if b.len() == 0 {
        Seq::empty()
    } else if b.len() <= 64 {
        b + seq![10u8]
    } else {
        b.take(64) + (seq![10u8] + pem_lines(b.skip(64)))
    }
}

/// The certificate text: header line, the encoded bytes in 64-byte lines,
/// footer line.
pub open spec fn pem_of(der: Seq<u8>) -> Seq<u8> {
    lit_pem_header() + (pem_lines(base64_of(der)) + lit_pem_footer())
}

/// Render one certificate, given in its raw form, as its text form.
pub fn cert_to_pem(cert: &Vec<u8>) -> (r: Vec<u8>)
    requires
        4 * ((cert@.len() + 2) / 3) <= usize::MAX,
    ensures
        r@ == pem_of(cert@),
{
    let b64 = base64_encode(cert);
    let mut out = lit_pem_header_vec();
    let mut pos: usize = 0;
    proof {
        assert(b64@.skip(0) =~= b64@);
    }
    while b64.len() - pos > 64
        invariant
            pos <= b64@.len(),
            b64@.len() <= usize::MAX,
            lit_pem_header() + pem_lines(b64@) == out@ + pem_lines(b64@.skip(pos as int)),
        decreases b64@.len() - pos,
    {
        let ghost rest = b64@.skip(pos as int);
        let mut j: usize = 0;
        let ghost base = out@;
        while j < 64
            invariant
                j <= 64,
                pos + 64 <= b64@.len(),
                b64@.len() <= usize::MAX,
                rest == b64@.skip(pos as int),
                out@ == base + rest.take(j as int),
            decreases 64 - j,
        {
            out.push(b64[pos + j]);
            proof {
                assert(rest[j as int] == b64@[pos + j]);
                assert(base + rest.take(j as int) + seq![rest[j as int]] =~= base + rest.take(
                    j as int + 1,
                ));
            }
            j = j + 1;
        }
        out.push(10);
        proof {
            assert(pem_lines(rest) == rest.take(64) + (seq![10u8] + pem_lines(rest.skip(64))));
            assert(rest.skip(64) =~= b64@.skip(pos as int + 64));
            assert(out@ =~= base + rest.take(64) + seq![10u8]);
            assert(out@ + pem_lines(b64@.skip(pos as int + 64)) =~= base + pem_lines(rest));
        }
        pos = pos + 64;
    }
    let ghost rest = b64@.skip(pos as int);
    let remaining = b64.len() - pos;
    let mut j: usize = 0;
    let ghost base = out@;
    while j < remaining
        invariant
            remaining == b64@.len() - pos,
            pos <= b64@.len(),
            b64@.len() <= usize::MAX,
            j <= remaining,
            rest == b64@.skip(pos as int),
            out@ == base + rest.take(j as int),
        decreases remaining - j,
    {
        out.push(b64[pos + j]);
        proof {
            assert(rest[j as int] == b64@[pos + j]);
            assert(base + rest.take(j as int) + seq![rest[j as int]] =~= base + rest.take(
                j as int + 1,
            ));
        }
        j = j + 1;
    }
    if remaining > 0 {
        out.push(10);
        proof {
            assert(rest.take(rest.len() as int) =~= rest);
            assert(pem_lines(rest) == rest + seq![10u8]);
            assert(out@ =~= base + pem_lines(rest));
        }
    } else {
        proof {
            assert(rest =~= Seq::<u8>::empty());
            assert(rest.take(0) =~= Seq::<u8>::empty());
            assert(out@ =~= base);
            assert(pem_lines(rest) =~= Seq::<u8>::empty());
            assert(out@ =~= base + pem_lines(rest));
        }
    }
    let f = lit_pem_footer_vec();
    crate::json::push_bytes(&mut out, &f);
    proof {
        assert(out@ =~= pem_of(cert@));
    }
    out
}

/// The text forms of a chain of certificates, concatenated in order.
pub open spec fn pems_of(s: Seq<Seq<u8>>) -> Seq<u8>
    decreases s.len(),
{
    if s.len() == 0 {
        Seq::empty()
    } else {
        pems_of(s.drop_last()) + pem_of(s.last())
    }
}

/// Render a whole certificate chain as one text bundle.
pub fn certs_to_pem(certs: &Vec<Vec<u8>>) -> (r: Vec<u8>)
    requires
        forall|i: int|
            0 <= i < certs@.len() ==> 4 * (((#[trigger] certs@[i])@.len() + 2) / 3) <= usize::MAX,
    ensures
        r@ == pems_of(certs@.map_values(|c: Vec<u8>| c@)),
{
    let ghost views = certs@.map_values(|c: Vec<u8>| c@);
    let mut out: Vec<u8> = Vec::new();
    let mut i: usize = 0;
    proof {
        assert(views.take(0) =~= Seq::<Seq<u8>>::empty());
        assert(out@ =~= pems_of(views.take(0)));
    }
    while i < certs.len()
        invariant
            i <= certs@.len(),
            views == certs@.map_values(|c: Vec<u8>| c@),
            out@ == pems_of(views.take(i as int)),
            forall|k: int|
                0 <= k < certs@.len() ==> 4 * (((#[trigger] certs@[k])@.len() + 2) / 3)
                    <= usize::MAX,
        decreases certs@.len() - i,
    {
        let p = cert_to_pem(&certs[i]);
        crate::json::push_bytes(&mut out, &p);
        proof {
            let t1 = views.take(i as int + 1);
            assert(t1.drop_last() =~= views.take(i as int));
            assert(t1.last() == certs@[i as int]@);
        }
        i = i + 1;
    }
    proof {
        assert(views.take(views.len() as int) =~= views);
    }
    out
}

} // verus!
