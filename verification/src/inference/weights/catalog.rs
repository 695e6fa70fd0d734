//! The tensors of a model directory: an index that says which file holds
//! which tensor, and the files.
use vstd::prelude::*;

use crate::error;
use crate::error::{TrajectError, TrajectErrorView};
use crate::inference::local_plan;
use crate::inference::weights::dtype;
use crate::inference::weights::dtype::bytes_to_f32_vec;
use crate::named::NamedTable;
use crate::text;
use crate::text::{decimal, ends_with, join_path, list_of_usize, same, strip_end};

verus! {

/// A tensor as it is stored.
#[derive(Debug)]
pub struct RawTensor {
    /// The name of the number type.
    pub dtype: String,
    pub shape: Vec<usize>,
    pub data: Vec<u8>,
}

pub struct RawTensorView {
    pub dtype: Seq<char>,
    pub shape: Seq<usize>,
    pub data: Seq<u8>,
}

impl View for RawTensor {
    type V = RawTensorView;

    open spec fn view(&self) -> RawTensorView {
        RawTensorView { dtype: self.dtype@, shape: self.shape@, data: self.data@ }
    }
}

/// `safetensors::SafeTensors`: a file that has been read. What it holds are
/// its `contents`.
#[verifier::external_type_specification]
#[verifier::external_body]
pub struct ExSafeTensors<'data>(safetensors::SafeTensors<'data>);

/// The tensors of a file that has been read, by name.
pub uninterp spec fn contents(st: safetensors::SafeTensors) -> Map<Seq<char>, RawTensorView>;

/// The tensors of the file with these bytes, if it can be read.
pub uninterp spec fn tensors_of(file: Seq<u8>) -> Option<Map<Seq<char>, RawTensorView>>;

/// What is said of a file that is not there.
pub const NOT_THERE: &'static str = ": No such file or directory (os error 2)";

/// How long a header may be.
pub const LONGEST_HEADER: u64 = 100_000_000;

/// The number that bytes spell, lowest first.
pub open spec fn little(bytes: Seq<u8>) -> nat
    decreases bytes.len(),
{
    if bytes.len() == 0 {
        0
    } else {
        bytes[0] as nat + 256 * little(bytes.drop_first())
    }
}

/// How long a file says that its header is.
pub open spec fn header_len(file: Seq<u8>) -> nat {
    little(file.take(8))
}

/// Whether every whole number that stands outside texts, from a byte on, is at
/// most `limit`; `value` is what the digits before the byte spell.
pub open spec fn numbers_fit(
    s: Seq<u8>,
    i: int,
    inside: bool,
    escaped: bool,
    value: nat,
    limit: nat,
) -> bool
    decreases s.len() - i,
{
    if i < 0 || i >= s.len() {
        true
    } else if escaped {
        numbers_fit(s, i + 1, inside, false, 0, limit)
    } else if inside {
        numbers_fit(s, i + 1, s[i] != 0x22, s[i] == 0x5c, 0, limit)
    } else if 0x30 <= s[i] && s[i] <= 0x39 {
        let v = (value * 10 + (s[i] - 0x30)) as nat;
        v <= limit && numbers_fit(s, i + 1, false, false, v, limit)
    } else {
        numbers_fit(s, i + 1, s[i] == 0x22, false, 0, limit)
    }
}

/// Whether the places that a file's header tells can be counted: each of them,
/// with the header before it.
pub open spec fn header_fits(file: Seq<u8>) -> bool {
    let n = header_len(file);
    file.len() < 8 || n > LONGEST_HEADER || 8 + n > file.len() || numbers_fit(
        file.subrange(8, 8 + n as int),
        0,
        false,
        false,
        0,
        (usize::MAX - 8 - n) as nat,
    )
}

fn header_of(file: &[u8]) -> (res: u64)
    requires
        file@.len() >= 8,
    ensures
        res == header_len(file@),
{
    let mut n: u64 = 0;
    let mut i: usize = 8;
    let ghost first = file@.take(8);
    assert(first.skip(8) =~= Seq::empty());
    while i > 0
        invariant
            i <= 8,
            file@.len() >= 8,
            first == file@.take(8),
            n == little(first.skip(i as int)),
            i == 8 ==> n == 0,
            i == 7 ==> n < 0x100,
            i == 6 ==> n < 0x1_0000,
            i == 5 ==> n < 0x100_0000,
            i == 4 ==> n < 0x1_0000_0000,
            i == 3 ==> n < 0x100_0000_0000,
            i == 2 ==> n < 0x1_0000_0000_0000,
            i == 1 ==> n < 0x100_0000_0000_0000,
        decreases i,
    {
        i -= 1;
        assert(first.skip(i as int).drop_first() =~= first.skip(i + 1));
        assert(first.skip(i as int)[0] == file@[i as int]);
        n = file[i] as u64 + 256 * n;
    }
    assert(first.skip(0) =~= first);
    n
}

fn does_header_fit(file: &[u8]) -> (res: bool)
    ensures
        res == header_fits(file@),
{
    let len: usize = file.len();
    if len < 8 {
        return true;
    }
    let n: u64 = header_of(file);
    if n > LONGEST_HEADER || n as usize > len - 8 {
        return true;
    }
    let stop: usize = 8 + n as usize;
    let ghost head = file@.subrange(8, stop as int);
    let limit: usize = usize::MAX - stop;
    let mut inside: bool = false;
    let mut escaped: bool = false;
    let mut value: usize = 0;
    let mut i: usize = 8;
    while i < stop
        invariant
            8 <= i <= stop <= file@.len(),
            head == file@.subrange(8, stop as int),
            value <= limit,
            limit == usize::MAX - stop,
            header_fits(file@) == numbers_fit(
                head,
                i - 8,
                inside,
                escaped,
                value as nat,
                limit as nat,
            ),
        decreases stop - i,
    {
        let c: u8 = file[i];
        assert(c == head[i - 8]);
        if escaped {
            escaped = false;
            value = 0;
        } else if inside {
            inside = c != 0x22;
            escaped = c == 0x5c;
            value = 0;
        } else if 0x30 <= c && c <= 0x39 {
            let v: u128 = value as u128 * 10 + (c - 0x30) as u128;
            if v > limit as u128 {
                return false;
            }
            value = v as usize;
        } else {
            inside = c == 0x22;
            value = 0;
        }
        i += 1;
    }
    true
}

/// `safetensors::SafeTensors::deserialize`: reads a file. Whether it can be
/// read, and what it holds, depends on its bytes alone. Nothing is said of the
/// wording of errors. A header whose places cannot be counted is left out: the
/// sum of the last of them and the header may overflow.
#[verifier::external_body]
fn read_file<'a>(file: &'a [u8]) -> (res: Result<safetensors::SafeTensors<'a>, String>)
    requires
        header_fits(file@),
    ensures
        match res {
            Ok(st) => tensors_of(file@) == Some(contents(st)),
            Err(_) => tensors_of(file@) is None,
        },
{
    safetensors::SafeTensors::deserialize(file).map_err(|e| e.to_string())
}

/// The tensors that a file holds, if its header can be counted and it can be
/// read.
pub open spec fn held_in(file: Seq<u8>) -> Option<Map<Seq<char>, RawTensorView>> {
    if header_fits(file) {
        tensors_of(file)
    } else {
        None
    }
}

/// `safetensors::SafeTensors::tensor`: the number type (by the name that its
/// `Debug` shows), the shape and the bytes of the tensor under a name. Nothing
/// is said of the wording of errors.
#[verifier::external_body]
fn tensor_named(st: &safetensors::SafeTensors, name: &str) -> (res: Result<RawTensor, String>)
    ensures
        match res {
            Ok(t) => contents(*st).dom().contains(name@) && contents(*st)[name@] == t@,
            Err(_) => !contents(*st).dom().contains(name@),
        },
{
    let view = st.tensor(name).map_err(|e| e.to_string())?;
    Ok(
        RawTensor {
            dtype: format!("{:?}", view.dtype()),
            shape: view.shape().to_vec(),
            data: view.data().to_vec(),
        },
    )
}

/// The tensor that a file holds under a name, if the file can be read and
/// holds it.
pub open spec fn stored_tensor(file: Seq<u8>, name: Seq<char>) -> Option<RawTensorView> {
    match held_in(file) {
        Some(m) => if m.dom().contains(name) {
            Some(m[name])
        } else {
            None
        },
        None => None,
    }
}

/// Why a tensor is not to be had of a file.
enum TensorFault {
    Unreadable(String),
    Missing(String),
}

fn tensor_in(file: &[u8], name: &str) -> (res: Result<RawTensor, TensorFault>)
    ensures
        match res {
            Ok(t) => stored_tensor(file@, name@) == Some(t@),
            Err(TensorFault::Unreadable(_)) => held_in(file@) is None,
            Err(TensorFault::Missing(_)) => held_in(file@) is Some && stored_tensor(
                file@,
                name@,
            ) is None,
        },
{
    if !does_header_fit(file) {
        return Err(TensorFault::Unreadable("offsets out of range".to_string()));
    }
    match read_file(file) {
        Ok(st) => match tensor_named(&st, name) {
            Ok(t) => Ok(t),
            Err(why) => Err(TensorFault::Missing(why)),
        },
        Err(why) => Err(TensorFault::Unreadable(why)),
    }
}

/// Single-precision numbers, by their bits, and their shape.
#[derive(Debug)]
pub struct TensorF32 {
    pub data: Vec<u32>,
    pub shape: Vec<usize>,
}

pub struct TensorF32View {
    pub data: Seq<u32>,
    pub shape: Seq<usize>,
}

impl View for TensorF32 {
    type V = TensorF32View;

    open spec fn view(&self) -> TensorF32View {
        TensorF32View { data: self.data@, shape: self.shape@ }
    }
}

impl Clone for TensorF32 {
    fn clone(&self) -> (res: Self)
        ensures
            res@ == self@,
    {
        let res = TensorF32 { data: self.data.clone(), shape: self.shape.clone() };
        assert(res.data@ =~= self.data@);
        assert(res.shape@ =~= self.shape@);
        res
    }
}

impl TensorF32 {
    pub fn rows(&self) -> (res: usize)
        ensures
            res == local_plan::rows_of(self@.shape),
    {
        rows(&self.shape)
    }

    pub fn cols(&self) -> (res: usize)
        ensures
            res == local_plan::cols_of(self@.shape),
    {
        cols(&self.shape)
    }
}

/// The rows of a shape.
pub fn rows(shape: &Vec<usize>) -> (res: usize)
    ensures
        res == local_plan::rows_of(shape@),
{
    if shape.len() > 0 {
        shape[0]
    } else {
        0
    }
}

/// The columns of a shape.
pub fn cols(shape: &Vec<usize>) -> (res: usize)
    ensures
        res == local_plan::cols_of(shape@),
{
    if shape.len() > 1 {
        shape[1]
    } else {
        1
    }
}

/// The number of values that a shape asks for.
pub open spec fn numel(shape: Seq<usize>) -> nat
    decreases shape.len(),
{
    if shape.len() == 0 {
        1
    } else {
        numel(shape.drop_last()) * shape.last() as nat
    }
}

/// A file of the model directory.
#[derive(Debug)]
pub struct Shard<'a> {
    pub file: String,
    /// Its bytes, or why they cannot be had.
    pub image: Result<&'a [u8], String>,
}

pub struct ShardView {
    pub file: Seq<char>,
    pub image: Result<Seq<u8>, Seq<char>>,
}

impl<'a> View for Shard<'a> {
    type V = ShardView;

    open spec fn view(&self) -> ShardView {
        ShardView {
            file: self.file@,
            image: match self.image {
                Ok(b) => Ok(b@),
                Err(why) => Err(why@),
            },
        }
    }
}

/// What a catalog knows.
pub struct CatalogView {
    pub root: Seq<char>,
    /// The file of each tensor that the index lists.
    pub weight_map: Map<Seq<char>, Seq<char>>,
    pub shards: Seq<ShardView>,
}

/// The first file of that name.
pub open spec fn file_of(shards: Seq<ShardView>, file: Seq<char>) -> Option<ShardView>
    decreases shards.len(),
{
    if shards.len() == 0 {
        None
    } else if shards[0].file == file {
        Some(shards[0])
    } else {
        file_of(shards.drop_first(), file)
    }
}

/// The bytes of the first file that holds a tensor of that name.
pub open spec fn holder(shards: Seq<ShardView>, name: Seq<char>) -> Option<Seq<u8>>
    decreases shards.len(),
{
    if shards.len() == 0 {
        None
    } else if shards[0].image matches Ok(b) && stored_tensor(b, name) is Some {
        Some(shards[0].image->Ok_0)
    } else {
        holder(shards.drop_first(), name)
    }
}

/// A name in quotes.
pub open spec fn in_quotes(name: Seq<char>) -> Seq<char> {
    "`"@ + name + "`"@
}

impl CatalogView {
    /// Whether a tensor is known: the index lists it, or a file holds it.
    pub open spec fn has(self, name: Seq<char>) -> bool {
        self.weight_map.dom().contains(name) || holder(self.shards, name) is Some
    }

    /// The file that a tensor is read from: that of the index, else one that
    /// holds it.
    pub open spec fn image(self, name: Seq<char>) -> Option<Seq<u8>> {
        if self.weight_map.dom().contains(name) {
            match file_of(self.shards, self.weight_map[name]) {
                Some(s) => match s.image {
                    Ok(b) => Some(b),
                    Err(_) => None,
                },
                None => None,
            }
        } else {
            holder(self.shards, name)
        }
    }

    /// Where a file is.
    pub open spec fn path(self, file: Seq<char>) -> Seq<char> {
        text::path_joined(self.root, file)
    }

    /// Whether `e` is the error for a tensor that is not to be had: it is not
    /// known, or its file is not there, cannot be had, cannot be read, or does
    /// not hold it.
    pub open spec fn raw_fault(self, name: Seq<char>, e: TrajectErrorView) -> bool {
        if !self.weight_map.dom().contains(name) {
            e == TrajectErrorView::Other(
                "tensor "@ + in_quotes(name) + " not found in "@ + self.root,
            )
        } else {
            let file = self.weight_map[name];
            match file_of(self.shards, file) {
                None => e == TrajectErrorView::Other("open "@ + self.path(file) + NOT_THERE@),
                Some(s) => match s.image {
                    Err(why) => e == TrajectErrorView::Other(why),
                    Ok(b) => if held_in(b) is None {
                        error::tells(e, "deserialize "@ + self.path(file) + ": "@)
                    } else {
                        error::tells(e, "tensor "@ + in_quotes(name) + ": "@)
                    },
                },
            }
        }
    }

    /// Whether `e` is the error for a tensor that cannot be read as
    /// single-precision numbers.
    pub open spec fn dense_fault(self, name: Seq<char>, e: TrajectErrorView) -> bool {
        match self.raw(name) {
            None => self.raw_fault(name, e),
            Some(r) => e == TrajectErrorView::Other(
                match dtype::decode_fault(r.data, r.dtype) {
                    Some(why) => "decode "@ + in_quotes(name) + ": "@ + why,
                    None => "tensor "@ + in_quotes(name) + " numel mismatch: got "@ + text::dec(
                        values_in(r),
                    ) + expected_text(r.shape) + " shape="@ + local_plan::shape_text(r.shape),
                },
            ),
        }
    }

    /// Whether `e` is the error for a weight of eight-bit numbers that is not
    /// to be had with its scale.
    pub open spec fn scaled_fault(self, name: Seq<char>, e: TrajectErrorView) -> bool {
        let scale = scale_name(name);
        match (self.raw(name), self.raw(scale)) {
            _ if !self.has(scale) => e == TrajectErrorView::Other(
                "no scale tensor for "@ + in_quotes(name) + " (expected "@ + in_quotes(scale)
                    + ")"@,
            ),
            (None, _) => self.raw_fault(name, e),
            (_, None) => self.raw_fault(scale, e),
            (Some(w), Some(s)) => if w.dtype != "F8_E4M3"@ {
                e == wrong_type(name, w.dtype, "F8_E4M3"@)
            } else {
                e == wrong_type(scale, s.dtype, "F8_E8M0"@)
            },
        }
    }

    /// Whether `e` is the error for a packed weight that is not to be had with
    /// its scale.
    pub open spec fn packed_fault(self, name: Seq<char>, e: TrajectErrorView) -> bool {
        let scale = scale_name(name);
        match (self.raw(name), self.raw(scale)) {
            _ if !self.has(scale) => e == TrajectErrorView::Other(
                "no scale for FP4 "@ + in_quotes(name) + " (expected "@ + in_quotes(scale) + ")"@,
            ),
            (None, _) => self.raw_fault(name, e),
            (_, None) => self.raw_fault(scale, e),
            (Some(w), Some(s)) => if w.dtype != "I8"@ && w.dtype != "U8"@ {
                e == wrong_type(name, w.dtype, "I8/U8 packed FP4"@)
            } else if s.dtype != "F8_E8M0"@ {
                e == wrong_type(scale, s.dtype, "F8_E8M0"@)
            } else {
                e == TrajectErrorView::Other(
                    "fp4 packed wants 2D shapes, got weight="@ + local_plan::shape_text(w.shape)
                        + " scale="@ + local_plan::shape_text(s.shape),
                )
            },
        }
    }

    /// The tensor under a name.
    pub open spec fn raw(self, name: Seq<char>) -> Option<RawTensorView> {
        match self.image(name) {
            Some(b) => stored_tensor(b, name),
            None => None,
        }
    }

    /// Whether a tensor can be read as single-precision numbers.
    pub open spec fn has_dense(self, name: Seq<char>) -> bool {
        match self.raw(name) {
            Some(r) => reads_dense(r),
            None => false,
        }
    }

    /// Whether `t` is the tensor under a name, as single-precision numbers.
    pub open spec fn dense(self, name: Seq<char>, t: TensorF32View) -> bool {
        self.raw(name) matches Some(r) && t.shape == r.shape && dtype::decoded(
            r.data,
            r.dtype,
            t.data,
        )
    }

    /// Whether a weight of eight-bit numbers and the scale of its blocks are
    /// there.
    pub open spec fn has_scaled(self, name: Seq<char>) -> bool {
        &&& self.has(scale_name(name))
        &&& self.raw(name) matches Some(w) && w.dtype == "F8_E4M3"@
        &&& self.raw(scale_name(name)) matches Some(s) && s.dtype == "F8_E8M0"@
    }
}

/// Whether the bytes of a tensor are numbers that can be read, as many as its
/// shape asks for.
pub open spec fn reads_dense(r: RawTensorView) -> bool {
    dtype::decode_fault(r.data, r.dtype) is None && values_in(r) == numel(r.shape)
}

/// How many numbers the bytes of a tensor are.
pub open spec fn values_in(r: RawTensorView) -> nat {
    if r.dtype == "F32"@ {
        r.data.len() / 4
    } else {
        r.data.len() / 2
    }
}

/// How an error says what a shape asks for, where that can be counted.
pub open spec fn expected_text(shape: Seq<usize>) -> Seq<char> {
    if numel(shape) <= usize::MAX {
        " expect "@ + text::dec(numel(shape))
    } else {
        Seq::empty()
    }
}

/// The error for a tensor of the wrong number type.
pub open spec fn wrong_type(
    name: Seq<char>,
    dtype: Seq<char>,
    wanted: Seq<char>,
) -> TrajectErrorView {
    TrajectErrorView::Other(in_quotes(name) + " dtype "@ + dtype + ", expected "@ + wanted)
}

fn wrong(name: &str, dtype: &str, wanted: &str) -> (res: TrajectError)
    ensures
        res@ == wrong_type(name@, dtype@, wanted@),
{
    let mut m = quoted("", name, " dtype ");
    m.append(dtype);
    m.append(", expected ");
    m.append(wanted);
    proof {
        reveal_strlit("");
    }
    assert(m@ =~= in_quotes(name@) + " dtype "@ + dtype@ + ", expected "@ + wanted@);
    TrajectError::Other(m)
}

/// The name of the scale that goes with a weight.
pub open spec fn scale_name(name: Seq<char>) -> Seq<char> {
    if text::ends(name, ".weight"@) {
        text::stripped_end(name, ".weight"@) + ".scale"@
    } else {
        name + ".scale"@
    }
}

fn scale_of(name: &str) -> (res: String)
    ensures
        res@ == scale_name(name@),
{
    if ends_with(name, ".weight") {
        proof {
            reveal_strlit(".weight");
        }
        let mut s = strip_end(name, ".weight");
        s.append(".scale");
        s
    } else {
        let mut s = name.to_string();
        s.append(".scale");
        s
    }
}

/// A weight of eight-bit numbers with the scale of its blocks.
#[derive(Debug)]
pub struct ScaledWeight {
    pub weight: RawTensor,
    pub scale: RawTensor,
    /// Values on each side of a block.
    pub block: usize,
}

/// Packed four-bit numbers with their scales.
#[derive(Debug)]
pub struct PackedFp4Mat {
    pub packed: Vec<u8>,
    pub rows: usize,
    pub packed_cols: usize,
    pub scale: Vec<u8>,
    pub scale_cols: usize,
    pub block_k: usize,
}

impl PackedFp4Mat {
    /// Two numbers stand in each byte.
    pub fn logical_cols(&self) -> (res: usize)
        ensures
            res == if 2 * self.packed_cols <= usize::MAX {
                2 * self.packed_cols
            } else {
                usize::MAX as int
            },
    {
        match self.packed_cols.checked_mul(2) {
            Some(n) => n,
            None => usize::MAX,
        }
    }
}

/// Whether the packed form of a weight can be read, and what it then is.
pub open spec fn packs(c: CatalogView, name: Seq<char>) -> bool {
    &&& c.has(scale_name(name))
    &&& c.raw(name) matches Some(w) && (w.dtype == "I8"@ || w.dtype == "U8"@) && w.shape.len() == 2
    &&& c.raw(scale_name(name)) matches Some(s) && s.dtype == "F8_E8M0"@ && s.shape.len() == 2
}

pub open spec fn is_packed(c: CatalogView, name: Seq<char>, block_k: usize, m: PackedFp4Mat) -> bool {
    &&& c.raw(name) matches Some(w) && m.packed@ == w.data && m.rows == w.shape[0]
        && m.packed_cols == w.shape[1]
    &&& c.raw(scale_name(name)) matches Some(s) && m.scale@ == s.data && m.scale_cols == s.shape[1]
    &&& m.block_k == if block_k < 1 {
        1
    } else {
        block_k
    }
}

/// A model directory with an optional index.
#[derive(Debug)]
pub struct SafetensorCatalog<'a> {
    root: String,
    weight_map: NamedTable<String>,
    shards: Vec<Shard<'a>>,
}

impl<'a> View for SafetensorCatalog<'a> {
    type V = CatalogView;

    closed spec fn view(&self) -> CatalogView {
        CatalogView {
            root: self.root@,
            weight_map: self.weight_map@.map_values(|s: String| s@),
            shards: self.shards@.map_values(|s: Shard<'a>| s@),
        }
    }
}

fn quoted(before: &str, name: &str, after: &str) -> (res: String)
    ensures
        res@ == before@ + in_quotes(name@) + after@,
{
    let mut m = before.to_string();
    m.append("`");
    m.append(name);
    m.append("`");
    m.append(after);
    assert(m@ =~= before@ + in_quotes(name@) + after@);
    m
}

fn product(shape: &Vec<usize>) -> (res: Option<usize>)
    ensures
        match res {
            Some(n) => n == numel(shape@),
            None => numel(shape@) > usize::MAX,
        },
{
    let mut n: usize = 1;
    let mut i: usize = 0;
    // A shape with a zero in it asks for nothing, however large the rest.
    let mut z: usize = 0;
    while z < shape.len()
        invariant
            z <= shape@.len(),
            forall|j: int| 0 <= j < z ==> shape@[j] != 0,
        decreases shape@.len() - z,
    {
        if shape[z] == 0 {
            proof {
                lemma_numel_zero(shape@, z as int);
            }
            return Some(0);
        }
        z += 1;
    }
    assert(shape@.take(0) =~= Seq::empty());
    while i < shape.len()
        invariant
            i <= shape@.len(),
            forall|j: int| 0 <= j < shape@.len() ==> shape@[j] != 0,
            n == numel(shape@.take(i as int)),
        decreases shape@.len() - i,
    {
        assert(shape@.take(i + 1).drop_last() =~= shape@.take(i as int));
        match n.checked_mul(shape[i]) {
            Some(m) => {
                n = m;
            },
            None => {
                proof {
                    lemma_numel_grows(shape@, i + 1);
                }
                return None;
            },
        }
        i += 1;
    }
    assert(shape@.take(i as int) =~= shape@);
    Some(n)
}

proof fn lemma_numel_zero(shape: Seq<usize>, z: int)
    requires
        0 <= z < shape.len(),
        shape[z] == 0,
    ensures
        numel(shape) == 0,
    decreases shape.len(),
{
    if z < shape.len() - 1 {
        lemma_numel_zero(shape.drop_last(), z);
        assert(0 * shape.last() as nat == 0) by (nonlinear_arith);
    } else {
        assert(numel(shape.drop_last()) * 0 == 0) by (nonlinear_arith);
    }
}

proof fn lemma_numel_grows(shape: Seq<usize>, i: int)
    requires
        0 <= i <= shape.len(),
        forall|j: int| 0 <= j < shape.len() ==> shape[j] != 0,
    ensures
        numel(shape.take(i)) <= numel(shape),
    decreases shape.len() - i,
{
    if i < shape.len() {
        lemma_numel_grows(shape, i + 1);
        assert(shape.take(i + 1).drop_last() =~= shape.take(i));
        let a = numel(shape.take(i));
        let b = shape[i] as nat;
        assert(a <= a * b) by (nonlinear_arith)
            requires
                b >= 1,
        ;
    } else {
        assert(shape.take(i) =~= shape);
    }
}

impl<'a> SafetensorCatalog<'a> {
    pub closed spec fn wf(&self) -> bool {
        self.weight_map.wf()
    }

    /// A catalog of files, with the index that lists what some of them hold.
    pub fn open(root: &str, weight_map: NamedTable<String>, shards: Vec<Shard<'a>>) -> (res: Self)
        requires
            weight_map.wf(),
        ensures
            res.wf(),
            res@.root == root@,
            res@.weight_map == weight_map@.map_values(|s: String| s@),
            res@.shards == shards@.map_values(|s: Shard<'a>| s@),
    {
        SafetensorCatalog { root: root.to_string(), weight_map, shards }
    }

    /// The directory.
    pub fn root(&self) -> (res: &str)
        ensures
            res@ == self@.root,
    {
        self.root.as_str()
    }

    /// The bytes of the first file of that name, or why they cannot be had.
    fn file(&self, file: &str) -> (res: Result<&'a [u8], TrajectError>)
        ensures
            match (res, file_of(self@.shards, file@)) {
                (Ok(b), Some(s)) => s.image == Ok::<Seq<u8>, Seq<char>>(b@),
                (Err(e), Some(s)) => s.image matches Err(why) && e@ == TrajectErrorView::Other(why),
                (Err(e), None) => e@ == TrajectErrorView::Other(
                    "open "@ + self@.path(file@) + NOT_THERE@,
                ),
                (Ok(_), None) => false,
            },
    {
        let mut i: usize = 0;
        let ghost all = self@.shards;
        assert(all.skip(0) =~= all);
        while i < self.shards.len()
            invariant
                i <= self.shards@.len(),
                all == self@.shards,
                file_of(all, file@) == file_of(all.skip(i as int), file@),
            decreases self.shards@.len() - i,
        {
            assert(all.skip(i as int).drop_first() =~= all.skip(i + 1));
            assert(all.skip(i as int)[0] == self.shards@[i as int]@);
            if same(self.shards[i].file.as_str(), file) {
                return match &self.shards[i].image {
                    Ok(b) => Ok(*b),
                    Err(why) => Err(TrajectError::Other(why.clone())),
                };
            }
            i += 1;
        }
        let mut m = "open ".to_string();
        m.append(join_path(self.root.as_str(), file).as_str());
        m.append(NOT_THERE);
        Err(TrajectError::Other(m))
    }

    /// The tensor of that name in the first file that holds one.
    fn scan(&self, name: &str) -> (res: Option<RawTensor>)
        ensures
            match res {
                Some(t) => holder(self@.shards, name@) matches Some(b) && stored_tensor(b, name@)
                    == Some(t@),
                None => holder(self@.shards, name@) is None,
            },
    {
        let mut i: usize = 0;
        let ghost all = self@.shards;
        assert(all.skip(0) =~= all);
        while i < self.shards.len()
            invariant
                i <= self.shards@.len(),
                all == self@.shards,
                holder(all, name@) == holder(all.skip(i as int), name@),
            decreases self.shards@.len() - i,
        {
            assert(all.skip(i as int).drop_first() =~= all.skip(i + 1));
            assert(all.skip(i as int)[0] == self.shards@[i as int]@);
            if let Ok(b) = &self.shards[i].image {
                if let Ok(t) = tensor_in(*b, name) {
                    return Some(t);
                }
            }
            i += 1;
        }
        None
    }

    /// Whether a tensor is known.
    pub fn has(&self, name: &str) -> (res: bool)
        requires
            self.wf(),
        ensures
            res == self@.has(name@),
    {
        if self.weight_map.contains(name) {
            return true;
        }
        match self.scan(name) {
            Some(_) => true,
            None => false,
        }
    }

    /// The tensor under a name, as it is stored.
    pub fn load_raw(&self, name: &str) -> (res: Result<RawTensor, TrajectError>)
        requires
            self.wf(),
        ensures
            match res {
                Ok(t) => self@.raw(name@) == Some(t@),
                Err(e) => self@.raw(name@) is None && self@.raw_fault(name@, e@),
            },
    {
        match self.weight_map.get(name) {
            Some(file) => {
                let image = match self.file(file.as_str()) {
                    Ok(b) => b,
                    Err(e) => {
                        return Err(e);
                    },
                };
                match tensor_in(image, name) {
                    Ok(t) => Ok(t),
                    Err(TensorFault::Missing(why)) => {
                        let mut m = quoted("tensor ", name, ": ");
                        let ghost head = m@;
                        m.append(why.as_str());
                        let e = TrajectError::Other(m);
                        assert(error::says(e@, head, why@));
                        Err(e)
                    },
                    Err(TensorFault::Unreadable(why)) => {
                        let mut m = "deserialize ".to_string();
                        m.append(join_path(self.root.as_str(), file.as_str()).as_str());
                        m.append(": ");
                        let ghost head = m@;
                        assert(head =~= "deserialize "@ + self@.path(file@) + ": "@);
                        m.append(why.as_str());
                        let e = TrajectError::Other(m);
                        assert(error::says(e@, head, why@));
                        Err(e)
                    },
                }
            },
            None => match self.scan(name) {
                Some(t) => Ok(t),
                None => {
                    let mut m = quoted("tensor ", name, " not found in ");
                    m.append(self.root.as_str());
                    Err(TrajectError::Other(m))
                },
            },
        }
    }

    /// The tensor under a name, as single-precision numbers.
    pub fn load_f32(&self, name: &str) -> (res: Result<TensorF32, TrajectError>)
        requires
            self.wf(),
        ensures
            res is Ok <==> self@.has_dense(name@),
            match res {
                Ok(t) => self@.dense(name@, t@) && t@.data.len() == numel(t@.shape),
                Err(e) => self@.dense_fault(name@, e@),
            },
    {
        let raw = match self.load_raw(name) {
            Ok(r) => r,
            Err(e) => {
                return Err(e);
            },
        };
        let data = match bytes_to_f32_vec(raw.data.as_slice(), raw.dtype.as_str()) {
            Ok(d) => d,
            Err(why) => {
                let mut m = quoted("decode ", name, ": ");
                m.append(why.as_str());
                return Err(TrajectError::Other(m));
            },
        };
        let expected = product(&raw.shape);
        let fits = match expected {
            Some(n) => n == data.len(),
            None => false,
        };
        if !fits {
            let mut m = quoted("tensor ", name, " numel mismatch: got ");
            m.append(decimal(data.len() as u64).as_str());
            let ghost head = m@;
            if let Some(n) = expected {
                m.append(" expect ");
                m.append(decimal(n as u64).as_str());
            }
            assert(m@ =~= head + expected_text(raw@.shape));
            m.append(" shape=");
            m.append(list_of_usize(raw.shape.as_slice(), ", ").as_str());
            return Err(TrajectError::Other(m));
        }
        Ok(TensorF32 { data, shape: raw.shape })
    }

    /// A weight of eight-bit numbers with the scale of its blocks.
    pub fn load_fp8_block_scaled(&self, weight_name: &str, block: usize) -> (res: Result<
        ScaledWeight,
        TrajectError,
    >)
        requires
            self.wf(),
        ensures
            res is Ok <==> self@.has_scaled(weight_name@),
            match res {
                Ok(w) => self@.raw(weight_name@) == Some(w.weight@) && self@.raw(
                    scale_name(weight_name@),
                ) == Some(w.scale@) && w.block == block,
                Err(e) => self@.scaled_fault(weight_name@, e@),
            },
    {
        let scale_key = scale_of(weight_name);
        if !self.has(scale_key.as_str()) {
            let mut m = quoted("no scale tensor for ", weight_name, " (expected ");
            proof {
                reveal_strlit("");
            }
            m.append(quoted("", scale_key.as_str(), ")").as_str());
            assert(m@ =~= "no scale tensor for "@ + in_quotes(weight_name@) + " (expected "@
                + in_quotes(scale_key@) + ")"@);
            return Err(TrajectError::Other(m));
        }
        let weight = match self.load_raw(weight_name) {
            Ok(r) => r,
            Err(e) => {
                return Err(e);
            },
        };
        let scale = match self.load_raw(scale_key.as_str()) {
            Ok(r) => r,
            Err(e) => {
                return Err(e);
            },
        };
        if !same(weight.dtype.as_str(), "F8_E4M3") {
            return Err(wrong(weight_name, weight.dtype.as_str(), "F8_E4M3"));
        }
        if !same(scale.dtype.as_str(), "F8_E8M0") {
            return Err(wrong(scale_key.as_str(), scale.dtype.as_str(), "F8_E8M0"));
        }
        Ok(ScaledWeight { weight, scale, block })
    }

    /// A packed weight of four-bit numbers, left packed.
    pub fn load_fp4_packed(&self, weight_name: &str, block_k: usize) -> (res: Result<
        PackedFp4Mat,
        TrajectError,
    >)
        requires
            self.wf(),
        ensures
            res is Ok <==> packs(self@, weight_name@),
            match res {
                Ok(m) => is_packed(self@, weight_name@, block_k, m),
                Err(e) => self@.packed_fault(weight_name@, e@),
            },
    {
        let scale_key = scale_of(weight_name);
        if !self.has(scale_key.as_str()) {
            let mut m = quoted("no scale for FP4 ", weight_name, " (expected ");
            proof {
                reveal_strlit("");
            }
            m.append(quoted("", scale_key.as_str(), ")").as_str());
            assert(m@ =~= "no scale for FP4 "@ + in_quotes(weight_name@) + " (expected "@
                + in_quotes(scale_key@) + ")"@);
            return Err(TrajectError::Other(m));
        }
        let weight = match self.load_raw(weight_name) {
            Ok(r) => r,
            Err(e) => {
                return Err(e);
            },
        };
        let scale = match self.load_raw(scale_key.as_str()) {
            Ok(r) => r,
            Err(e) => {
                return Err(e);
            },
        };
        if !same(weight.dtype.as_str(), "I8") && !same(weight.dtype.as_str(), "U8") {
            return Err(wrong(weight_name, weight.dtype.as_str(), "I8/U8 packed FP4"));
        }
        if !same(scale.dtype.as_str(), "F8_E8M0") {
            return Err(wrong(scale_key.as_str(), scale.dtype.as_str(), "F8_E8M0"));
        }
        if weight.shape.len() != 2 || scale.shape.len() != 2 {
            let mut m = "fp4 packed wants 2D shapes, got weight=".to_string();
            m.append(list_of_usize(weight.shape.as_slice(), ", ").as_str());
            m.append(" scale=");
            m.append(list_of_usize(scale.shape.as_slice(), ", ").as_str());
            return Err(TrajectError::Other(m));
        }
        Ok(
            PackedFp4Mat {
                rows: weight.shape[0],
                packed_cols: weight.shape[1],
                packed: weight.data,
                scale_cols: scale.shape[1],
                scale: scale.data,
                block_k: if block_k < 1 {
                    1
                } else {
                    block_k
                },
            },
        )
    }
}

} // verus!
