//! Model weights: the files that hold them and the tensors in them.

use crate::error::{GpuError, ModelError};
use crate::gpu::memory::{self, DeviceMemory};
use crate::gpu::tensor::{self, DType, Tensor, TensorModel};
use crate::halves;
use crate::text;
use vstd::prelude::*;

verus! {

/// Each name comes before the next.
pub open spec fn ascending(names: Seq<Seq<char>>) -> bool {
    forall|i: int, j: int|
        0 <= i < j < names.len() ==> text::comes_first(#[trigger] names[i], #[trigger] names[j])
}

/// The names in ascending order, each once.
pub fn sorted_unique(names: &Vec<String>) -> (out: Vec<String>)
    ensures
        ascending(text::string_views(out@)),
        forall|name: Seq<char>|
            text::string_views(out@).contains(name) <==> text::string_views(names@).contains(name),
{
    let mut out: Vec<String> = Vec::new();
    let mut n: usize = 0;
    while n < names.len()
        invariant
            n <= names@.len(),
            ascending(text::string_views(out@)),
            forall|name: Seq<char>|
                text::string_views(out@).contains(name) <==> text::string_views(names@.take(n as int)).contains(name),
        decreases names.len() - n,
    {
        let ghost before = text::string_views(out@);
        let ghost taken = text::string_views(names@.take(n as int));
        let ghost name = names@[n as int]@;
        insert_name(&mut out, &names[n]);
        proof {
            let longer = text::string_views(names@.take(n + 1));
            assert(longer =~= taken.push(name));
            assert forall|other: Seq<char>|
                text::string_views(out@).contains(other) <==> longer.contains(other) by {
                assert(text::string_views(out@).contains(other) <==> before.contains(other) || other == name);
                if longer.contains(other) {
                    let i = choose|i: int| 0 <= i < longer.len() && longer[i] == other;
                    if i < taken.len() {
                        assert(taken[i] == other);
                    }
                }
                if taken.contains(other) {
                    let i = choose|i: int| 0 <= i < taken.len() && taken[i] == other;
                    assert(longer[i] == other);
                }
                if other == name {
                    assert(longer[taken.len() as int] == other);
                }
            }
        }
        n += 1;
    }
    assert(names@.take(names@.len() as int) =~= names@);
    out
}

fn insert_name(list: &mut Vec<String>, name: &String)
    requires
        ascending(text::string_views(old(list)@)),
    ensures
        ascending(text::string_views(final(list)@)),
        forall|other: Seq<char>| #[trigger]
            text::string_views(final(list)@).contains(other) <==> text::string_views(old(list)@).contains(other) || other
                == name@,
{
    let ghost before = text::string_views(list@);
    let mut at: usize = 0;
    while at < list.len() && text::precedes(list[at].as_str(), name.as_str())
        invariant
            at <= list@.len(),
            list@ == old(list)@,
            before == text::string_views(list@),
            forall|i: int| 0 <= i < at ==> text::comes_first(#[trigger] before[i], name@),
        decreases list.len() - at,
    {
        assert(before[at as int] == list@[at as int]@);
        at += 1;
    }
    if at < list.len() && text::same(list[at].as_str(), name.as_str()) {
        assert(before[at as int] == name@);
        return ;
    }
    let copy = name.clone();
    list.insert(at, copy);
    proof {
        let after = text::string_views(list@);
        assert(after =~= before.insert(at as int, name@));
        if at < before.len() {
            text::lemma_order_is_total(before[at as int], name@);
        }
        assert forall|i: int, j: int| 0 <= i < j < after.len() implies text::comes_first(
            #[trigger] after[i],
            #[trigger] after[j],
        ) by {
            if i == at {
                assert(after[j] == before[j - 1]);
                if j - 1 > at {
                    text::lemma_order_is_transitive(name@, before[at as int], before[j - 1]);
                }
            } else if j == at {
                assert(after[i] == before[i]);
            } else {
                let oi = if i < at {
                    i
                } else {
                    i - 1
                };
                let oj = if j < at {
                    j
                } else {
                    j - 1
                };
                assert(after[i] == before[oi] && after[j] == before[oj]);
            }
        }
        assert forall|other: Seq<char>| #[trigger]
            after.contains(other) <==> before.contains(other) || other == name@ by {
            if after.contains(other) {
                let i = choose|i: int| 0 <= i < after.len() && after[i] == other;
                if i < at {
                    assert(before[i] == other);
                } else if i > at {
                    assert(before[i - 1] == other);
                }
            }
            if before.contains(other) {
                let i = choose|i: int| 0 <= i < before.len() && before[i] == other;
                if i < at {
                    assert(after[i] == other);
                } else {
                    assert(after[i + 1] == other);
                }
            }
            assert(after[at as int] == name@);
        }
    }
}

/// The weight files of a model directory: those that its index lists, or the
/// single file. `index` holds the file of every weight that the index lists.
pub fn weight_files(index: Option<&Vec<String>>, single_exists: bool) -> (result: Result<
    Vec<String>,
    ModelError,
>)
    ensures
        match index {
            Some(files) => {
                &&& result is Ok
                &&& ascending(text::string_views(result->Ok_0@))
                &&& forall|name: Seq<char>|
                    text::string_views(result->Ok_0@).contains(name) <==> text::string_views(files@).contains(name)
            },
            None => if single_exists {
                &&& result is Ok
                &&& text::string_views(result->Ok_0@) == seq!["model.safetensors"@]
            } else {
                result == Err::<Vec<String>, ModelError>(ModelError::MissingWeights)
            },
        },
{
    match index {
        Some(files) => Ok(sorted_unique(files)),
        None => if single_exists {
            let mut files: Vec<String> = Vec::new();
            files.push("model.safetensors".to_owned());
            assert(text::string_views(files@) =~= seq!["model.safetensors"@]);
            Ok(files)
        } else {
            Err(ModelError::MissingWeights)
        },
    }
}

/// The element types that matter to a model.
#[derive(Clone, Copy, Debug, PartialEq, Eq, Structural)]
pub enum StoredDType {
    F16,
    BF16,
    Other,
}

/// A tensor as a file holds it.
pub struct StoredTensor<'data> {
    pub name: String,
    pub dtype: StoredDType,
    pub shape: Vec<usize>,
    pub data: &'data [u8],
}

#[verifier::ext_equal]
pub struct StoredModel {
    pub dtype: StoredDType,
    pub shape: Seq<usize>,
    pub data: Seq<u8>,
}

impl<'data> View for StoredTensor<'data> {
    type V = StoredModel;

    open spec fn view(&self) -> StoredModel {
        StoredModel { dtype: self.dtype, shape: self.shape@, data: self.data@ }
    }
}

/// The tensors by name. A later one of the same name counts.
pub open spec fn by_name(tensors: Seq<StoredTensor>) -> Map<Seq<char>, StoredModel>
    decreases tensors.len(),
{
    if tensors.len() == 0 {
        Map::empty()
    } else {
        by_name(tensors.drop_last()).insert(tensors.last().name@, tensors.last()@)
    }
}

/// No two tensors have the same name.
pub open spec fn distinct_names(tensors: Seq<StoredTensor>) -> bool {
    forall|i: int, j: int|
        0 <= i < j < tensors.len() ==> (#[trigger] tensors[i]).name@ != (#[trigger] tensors[j]).name@
}

#[verifier::external_type_specification]
#[verifier::external_body]
pub struct ExSafeTensorError(safetensors::SafeTensorError);

/// The tensors of a safetensors file by name, or nothing if the bytes are no
/// such file.
pub uninterp spec fn safetensors_contents(bytes: Seq<u8>) -> Option<Map<Seq<char>, StoredModel>>;

/// `safetensors::SafeTensors::deserialize`, and the tensors that it finds. They
/// come in no particular order, each name once. A header whose offsets come
/// close to the largest machine number would overflow a sum there, so its
/// numbers are limited.
#[verifier::external_body]
fn read_safetensors<'data>(bytes: &'data [u8]) -> (result: Result<
    Vec<StoredTensor<'data>>,
    safetensors::SafeTensorError,
>)
    requires
        !long_number(header(bytes@), 0, false, false, 0),
    ensures
        match result {
            Ok(tensors) => safetensors_contents(bytes@) == Some(by_name(tensors@))
                && distinct_names(tensors@),
            Err(_) => safetensors_contents(bytes@) is None,
        },
{
    Ok(safetensors::SafeTensors::deserialize(bytes)?.tensors().into_iter().map(
        |(name, view)| StoredTensor {
            name,
            dtype: match view.dtype() {
                safetensors::Dtype::F16 => StoredDType::F16,
                safetensors::Dtype::BF16 => StoredDType::BF16,
                _ => StoredDType::Other,
            },
            shape: view.shape().to_vec(),
            data: view.data(),
        },
    ).collect())
}

/// The length that the first eight bytes give, least significant byte first.
pub open spec fn header_len(bytes: Seq<u8>) -> int {
    bytes[0] + bytes[1] * 0x100 + bytes[2] * 0x1_0000 + bytes[3] * 0x100_0000 + bytes[4]
        * 0x1_0000_0000 + bytes[5] * 0x100_0000_0000 + bytes[6] * 0x1_0000_0000_0000 + bytes[7]
        * 0x100_0000_0000_0000
}

/// The header of a safetensors file, or nothing if it does not fit in the file.
pub open spec fn header(bytes: Seq<u8>) -> Seq<u8> {
    if bytes.len() >= 8 && header_len(bytes) <= bytes.len() - 8 {
        bytes.subrange(8, 8 + header_len(bytes))
    } else {
        Seq::empty()
    }
}

/// The digits of the least number that is too long: numbers with fewer can be
/// added up in a machine word.
pub open spec fn digit_limit() -> int {
    if usize::MAX > u32::MAX {
        20
    } else {
        10
    }
}

/// Whether too many digits in a row stand outside quotes, from `at` on, after
/// `run` digits.
pub open spec fn long_number(s: Seq<u8>, at: int, quoted: bool, escaped: bool, run: int) -> bool
    decreases s.len() - at,
{
    if run >= digit_limit() {
        true
    } else if at < 0 || at >= s.len() {
        false
    } else if quoted {
        if escaped {
            long_number(s, at + 1, true, false, 0)
        } else if s[at] == 0x5c {
            long_number(s, at + 1, true, true, 0)
        } else {
            long_number(s, at + 1, s[at] != 0x22, false, 0)
        }
    } else if s[at] == 0x22 {
        long_number(s, at + 1, true, false, 0)
    } else if 0x30 <= s[at] <= 0x39 {
        long_number(s, at + 1, false, false, run + 1)
    } else {
        long_number(s, at + 1, false, false, 0)
    }
}

fn has_long_number(bytes: &[u8]) -> (answer: bool)
    ensures
        answer == long_number(header(bytes@), 0, false, false, 0),
{
    if bytes.len() < 8 {
        return false;
    }
    let length: u64 = bytes[0] as u64 + bytes[1] as u64 * 0x100 + bytes[2] as u64 * 0x1_0000
        + bytes[3] as u64 * 0x100_0000 + bytes[4] as u64 * 0x1_0000_0000 + bytes[5] as u64
        * 0x100_0000_0000 + bytes[6] as u64 * 0x1_0000_0000_0000 + bytes[7] as u64
        * 0x100_0000_0000_0000;
    assert(length == header_len(bytes@));
    if length > (bytes.len() - 8) as u64 {
        return false;
    }
    let end: usize = 8 + length as usize;
    let ghost text = header(bytes@);
    let mut at: usize = 8;
    let mut quoted = false;
    let mut escaped = false;
    let mut run: usize = 0;
    let limit: usize = if usize::MAX > u32::MAX as usize {
        20
    } else {
        10
    };
    while at < end && run < limit
        invariant
            8 <= at <= end <= bytes@.len(),
            run <= limit <= 20,
            limit == digit_limit(),
            text == bytes@.subrange(8, end as int),
            text == header(bytes@),
            long_number(text, 0, false, false, 0) == long_number(
                text,
                at - 8,
                quoted,
                escaped,
                run as int,
            ),
        decreases end - at,
    {
        let byte: u8 = bytes[at];
        assert(text[at - 8] == byte);
        if quoted {
            run = 0;
            if escaped {
                escaped = false;
            } else if byte == 0x5c {
                escaped = true;
            } else {
                quoted = byte != 0x22;
            }
        } else if byte == 0x22 {
            quoted = true;
            escaped = false;
            run = 0;
        } else if 0x30 <= byte && byte <= 0x39 {
            escaped = false;
            run += 1;
        } else {
            escaped = false;
            run = 0;
        }
        at += 1;
    }
    run >= limit
}

/// The tensors of a weight file. A header with a number that no file can need
/// is refused like any other that is not well formed.
pub fn stored_tensors<'data>(bytes: &'data [u8]) -> (result: Result<
    Vec<StoredTensor<'data>>,
    ModelError,
>)
    ensures
        match result {
            Ok(tensors) => {
                &&& safetensors_contents(bytes@) == Some(by_name(tensors@))
                &&& distinct_names(tensors@)
            },
            Err(error) => {
                &&& error == ModelError::Safetensors
                &&& safetensors_contents(bytes@) is None || long_number(
                    header(bytes@),
                    0,
                    false,
                    false,
                    0,
                )
            },
        },
        result is Ok ==> !long_number(header(bytes@), 0, false, false, 0),
{
    if has_long_number(bytes) {
        return Err(ModelError::Safetensors);
    }
    match read_safetensors(bytes) {
        Ok(tensors) => Ok(tensors),
        Err(_) => Err(ModelError::Safetensors),
    }
}

/// The tensors of a model by name, until they are taken.
pub struct WeightMap {
    entries: Vec<(String, Tensor)>,
}

/// The names and tensors of a list. A later one of the same name counts.
pub open spec fn listed(entries: Seq<(String, Tensor)>) -> Map<Seq<char>, TensorModel>
    decreases entries.len(),
{
    if entries.len() == 0 {
        Map::empty()
    } else {
        listed(entries.drop_last()).insert(entries.last().0@, entries.last().1@)
    }
}

spec fn distinct(entries: Seq<(String, Tensor)>) -> bool {
    forall|i: int, j: int|
        0 <= i < j < entries.len() ==> (#[trigger] entries[i]).0@ != (#[trigger] entries[j]).0@
}

impl View for WeightMap {
    type V = Map<Seq<char>, TensorModel>;

    closed spec fn view(&self) -> Map<Seq<char>, TensorModel> {
        listed(self.entries@)
    }
}

proof fn lemma_listed(entries: Seq<(String, Tensor)>)
    requires
        distinct(entries),
    ensures
        forall|i: int|
            0 <= i < entries.len() ==> listed(entries).dom().contains(
                (#[trigger] entries[i]).0@,
            ) && listed(entries)[entries[i].0@] == entries[i].1@,
        forall|name: Seq<char>| #[trigger]
            listed(entries).dom().contains(name) ==> exists|i: int|
                0 <= i < entries.len() && (#[trigger] entries[i]).0@ == name,
    decreases entries.len(),
{
    if entries.len() > 0 {
        let rest = entries.drop_last();
        assert forall|i: int, j: int| 0 <= i < j < rest.len() implies (#[trigger] rest[i]).0@ != (
        #[trigger] rest[j]).0@ by {
            assert(rest[i] == entries[i] && rest[j] == entries[j]);
        }
        lemma_listed(rest);
        assert forall|i: int| 0 <= i < entries.len() implies listed(entries).dom().contains(
            (#[trigger] entries[i]).0@,
        ) && listed(entries)[entries[i].0@] == entries[i].1@ by {
            if i < rest.len() {
                assert(rest[i] == entries[i]);
                assert(entries[i].0@ != entries[entries.len() - 1].0@);
            }
        }
        assert forall|name: Seq<char>| #[trigger]
            listed(entries).dom().contains(name) implies exists|i: int|
            0 <= i < entries.len() && (#[trigger] entries[i]).0@ == name by {
            if name == entries.last().0@ {
                assert(entries[entries.len() - 1].0@ == name);
            } else {
                assert(listed(rest).dom().contains(name));
                let i = choose|i: int| 0 <= i < rest.len() && (#[trigger] rest[i]).0@ == name;
                assert(entries[i].0@ == name);
            }
        }
    }
}

impl WeightMap {
    #[verifier::type_invariant]
    spec fn unique(self) -> bool {
        distinct(self.entries@)
    }

    pub fn new() -> (map: WeightMap)
        ensures
            map@ == Map::<Seq<char>, TensorModel>::empty(),
    {
        WeightMap { entries: Vec::new() }
    }

    /// The place of a name in the list.
    fn find(&self, name: &str) -> (found: Option<usize>)
        ensures
            match found {
                Some(at) => at < self.entries@.len() && self.entries@[at as int].0@ == name@
                    && self@.dom().contains(name@) && self@[name@] == self.entries@[at as int].1@,
                None => !self@.dom().contains(name@) && forall|i: int|
                    0 <= i < self.entries@.len() ==> (#[trigger] self.entries@[i]).0@ != name@,
            },
    {
        proof {
            use_type_invariant(self);
            lemma_listed(self.entries@);
        }
        let mut at: usize = 0;
        while at < self.entries.len()
            invariant
                at <= self.entries@.len(),
                forall|i: int| 0 <= i < at ==> (#[trigger] self.entries@[i]).0@ != name@,
            decreases self.entries.len() - at,
        {
            if text::same(self.entries[at].0.as_str(), name) {
                proof {
                    use_type_invariant(self);
                    lemma_listed(self.entries@);
                }
                return Some(at);
            }
            at += 1;
        }
        None
    }

    /// Adds a tensor, in place of one that has the name already.
    pub fn insert(&mut self, name: String, tensor: Tensor)
        ensures
            final(self)@ == old(self)@.insert(name@, tensor@),
    {
        let found = self.find(name.as_str());
        proof {
            use_type_invariant(&*self);
        }
        let ghost before = self.entries@;
        let mut entries: Vec<(String, Tensor)> = Vec::new();
        std::mem::swap(&mut entries, &mut self.entries);
        match found {
            Some(at) => {
                let _ = entries.remove(at);
            },
            None => {},
        }
        let ghost rest = entries@;
        entries.push((name, tensor));
        proof {
            let gone = match found {
                Some(at) => at as int,
                None => before.len() as int,
            };
            assert forall|i: int, j: int| 0 <= i < j < entries@.len() implies (
            #[trigger] entries@[i]).0@ != (#[trigger] entries@[j]).0@ by {
                let oi = if i < gone {
                    i
                } else {
                    i + 1
                };
                assert(entries@[i] == before[oi]);
                if j < rest.len() {
                    let oj = if j < gone {
                        j
                    } else {
                        j + 1
                    };
                    assert(entries@[j] == before[oj]);
                } else if oi < gone && gone < before.len() {
                    assert(before[oi].0@ != before[gone].0@);
                } else if gone < before.len() {
                    assert(before[gone].0@ != before[oi].0@);
                }
            }
            assert(entries@.drop_last() =~= rest);
            lemma_without(before, rest, name@);
        }
        self.entries = entries;
    }

    /// Takes a tensor out.
    pub fn take(&mut self, name: &str) -> (result: Result<Tensor, ModelError>)
        ensures
            match result {
                Ok(tensor) => {
                    &&& old(self)@.dom().contains(name@)
                    &&& tensor@ == old(self)@[name@]
                    &&& final(self)@ == old(self)@.remove(name@)
                },
                Err(error) => {
                    &&& !old(self)@.dom().contains(name@)
                    &&& error == ModelError::MissingTensor
                    &&& final(self)@ == old(self)@
                },
            },
    {
        match self.find(name) {
            None => Err(ModelError::MissingTensor),
            Some(at) => {
                proof {
                    use_type_invariant(&*self);
                }
                let ghost before = self.entries@;
                let mut entries: Vec<(String, Tensor)> = Vec::new();
                std::mem::swap(&mut entries, &mut self.entries);
                let (_, tensor) = entries.remove(at);
                proof {
                    assert forall|i: int, j: int| 0 <= i < j < entries@.len() implies (
                    #[trigger] entries@[i]).0@ != (#[trigger] entries@[j]).0@ by {
                        let oi = if i < at {
                            i
                        } else {
                            i + 1
                        };
                        let oj = if j < at {
                            j
                        } else {
                            j + 1
                        };
                        assert(entries@[i] == before[oi] && entries@[j] == before[oj]);
                    }
                    lemma_without(before, entries@, name@);
                    lemma_listed(entries@);
                    assert(!listed(entries@).dom().contains(name@)) by {
                        if listed(entries@).dom().contains(name@) {
                            let i = choose|i: int|
                                0 <= i < entries@.len() && (#[trigger] entries@[i]).0@ == name@;
                            let oi = if i < at {
                                i
                            } else {
                                i + 1
                            };
                            assert(entries@[i] == before[oi]);
                            if oi < at {
                                assert(before[oi].0@ != before[at as int].0@);
                            } else {
                                assert(before[at as int].0@ != before[oi].0@);
                            }
                        }
                    }
                    assert(listed(entries@) =~= listed(before).remove(name@)) by {
                        assert(listed(entries@).remove(name@) == listed(before).remove(name@));
                        assert(listed(entries@) =~= listed(entries@).remove(name@));
                    }
                }
                self.entries = entries;
                Ok(tensor)
            },
        }
    }
}

/// A list that lost the entries of one name lists the same under every other.
proof fn lemma_without(
    before: Seq<(String, Tensor)>,
    after: Seq<(String, Tensor)>,
    name: Seq<char>,
)
    requires
        distinct(before),
        after == before || exists|at: int|
            0 <= at < before.len() && before[at].0@ == name && after == #[trigger] before.remove(at),
    ensures
        listed(after).insert(name, arbitrary()) == listed(before).insert(name, arbitrary()),
        listed(after).remove(name) == listed(before).remove(name),
        forall|tensor: TensorModel|
            listed(after).insert(name, tensor) == #[trigger] listed(before).insert(name, tensor),
{
    if after != before {
        let at = choose|at: int|
            0 <= at < before.len() && before[at].0@ == name && after == #[trigger] before.remove(at);
        assert forall|i: int, j: int| 0 <= i < j < after.len() implies (#[trigger] after[i]).0@ != (
        #[trigger] after[j]).0@ by {
            let oi = if i < at {
                i
            } else {
                i + 1
            };
            let oj = if j < at {
                j
            } else {
                j + 1
            };
            assert(after[i] == before[oi] && after[j] == before[oj]);
        }
        lemma_listed(before);
        lemma_listed(after);
        assert forall|other: Seq<char>| other != name implies (listed(after).dom().contains(other)
            <==> listed(before).dom().contains(other)) && (listed(before).dom().contains(other)
            ==> listed(after)[other] == listed(before)[other]) by {
            if listed(before).dom().contains(other) {
                let i = choose|i: int| 0 <= i < before.len() && (#[trigger] before[i]).0@ == other;
                let n = if i < at {
                    i
                } else {
                    i - 1
                };
                assert(after[n] == before[i]);
            }
            if listed(after).dom().contains(other) {
                let i = choose|i: int| 0 <= i < after.len() && (#[trigger] after[i]).0@ == other;
                let o = if i < at {
                    i
                } else {
                    i + 1
                };
                assert(after[i] == before[o]);
            }
        }
        assert(listed(after).remove(name) =~= listed(before).remove(name));
        assert forall|tensor: TensorModel|
            listed(after).insert(name, tensor) == #[trigger] listed(before).insert(
                name,
                tensor,
            ) by {
            assert(listed(after).insert(name, tensor) =~= listed(before).insert(name, tensor));
        }
    }
}

/// Why a stored tensor cannot be taken over. Its data must be the bytes of
/// half-width elements, one for each element of its shape.
pub open spec fn stored_error(stored: StoredModel) -> Option<ModelError> {
    if stored.dtype == StoredDType::Other {
        Some(ModelError::UnsupportedTensorDType)
    } else {
        match memory::buffer_error(stored.shape, DType::F16) {
            Some(error) => Some(ModelError::Gpu(error)),
            None => if stored.data.len() == tensor::elements(stored.shape)
                * DType::F16.spec_size() {
                None
            } else {
                Some(ModelError::Gpu(GpuError::DataLengthMismatch))
            },
        }
    }
}

/// The data that a device buffer is filled from, and what its elements are.
pub struct Upload<'data> {
    pub buffer: usize,
    pub source: StoredDType,
    pub data: &'data [u8],
}

impl<'data> Upload<'data> {
    /// Whether the data goes into a buffer of this many bytes.
    pub open spec fn goes_into(&self, bytes: int) -> bool {
        self.data@.len() <= bytes && (self.source == StoredDType::BF16 ==> self.data@.len() % 2
            == 0)
    }

    /// What the data makes of a buffer: half-precision elements from its start,
    /// and behind them what was there.
    pub open spec fn filled(&self, buffer: Seq<u8>) -> Seq<u8> {
        if self.source == StoredDType::BF16 {
            halves::narrowed_over(self.data@, buffer)
        } else {
            self.data@ + buffer.skip(self.data@.len() as int)
        }
    }

    /// Fills a buffer, element by element, with no copy of the data in between.
    pub fn fill(&self, buffer: &mut [u8]) -> (result: Result<(), GpuError>)
        ensures
            if self.goes_into(old(buffer)@.len() as int) {
                &&& result is Ok
                &&& final(buffer)@ == self.filled(old(buffer)@)
            } else {
                &&& result == Err::<(), GpuError>(GpuError::DataLengthMismatch)
                &&& final(buffer)@ == old(buffer)@
            },
    {
        let ghost before = buffer@;
        let data = self.data;
        if data.len() > buffer.len() {
            return Err(GpuError::DataLengthMismatch);
        }
        if self.source == StoredDType::BF16 {
            if data.len() % 2 != 0 {
                return Err(GpuError::DataLengthMismatch);
            }
            halves::narrow_into(data, buffer);
            return Ok(());
        }
        let mut i: usize = 0;
        while i < data.len()
            invariant
                i <= data@.len() <= before.len(),
                buffer@ == data@.take(i as int) + before.skip(i as int),
            decreases data@.len() - i,
        {
            buffer[i] = data[i];
            i += 1;
            assert(buffer@ =~= data@.take(i as int) + before.skip(i as int));
        }
        assert(data@.take(i as int) =~= data@);
        Ok(())
    }
}

/// The tensors that a list of stored ones becomes, in buffers of their own.
pub open spec fn taken_over(
    map: Map<Seq<char>, TensorModel>,
    buffers: int,
    tensors: Seq<StoredTensor>,
) -> Map<Seq<char>, TensorModel>
    decreases tensors.len(),
{
    if tensors.len() == 0 {
        map
    } else {
        taken_over(map, buffers, tensors.drop_last()).insert(
            tensors.last().name@,
            memory::whole_buffer(
                (buffers + tensors.len() - 1) as usize,
                tensors.last().shape@,
                DType::F16,
            ),
        )
    }
}

/// The lengths of the buffers with one more for each of the tensors.
pub open spec fn buffers_with(lens: Seq<usize>, tensors: Seq<StoredTensor>) -> Seq<usize> {
    lens + Seq::new(
        tensors.len(),
        |i: int| memory::whole_buffer(0, tensors[i].shape@, DType::F16).capacity,
    )
}

/// Whether every tensor lies in a buffer of the device.
pub open spec fn on_device(map: Map<Seq<char>, TensorModel>) -> bool {
    forall|name: Seq<char>| #[trigger] map.dom().contains(name) ==> map[name].on_device()
}

/// Tensors that are taken over lie in buffers of the device.
pub proof fn stored_tensors_lie_on_the_device(
    map: Map<Seq<char>, TensorModel>,
    buffers: int,
    tensors: Seq<StoredTensor>,
)
    requires
        on_device(map),
    ensures
        on_device(taken_over(map, buffers, tensors)),
    decreases tensors.len(),
{
    if tensors.len() > 0 {
        stored_tensors_lie_on_the_device(map, buffers, tensors.drop_last());
    }
}

/// The first tensor of a list that cannot be taken over.
pub open spec fn first_refused(tensors: Seq<StoredTensor>) -> Option<ModelError>
    decreases tensors.len(),
{
    if tensors.len() == 0 {
        None
    } else {
        match first_refused(tensors.drop_last()) {
            Some(error) => Some(error),
            None => stored_error(tensors.last()@),
        }
    }
}

/// How many tensors of a list come before the first that cannot be taken over.
pub open spec fn taken_before_refusal(tensors: Seq<StoredTensor>) -> int
    decreases tensors.len(),
{
    if tensors.len() == 0 {
        0
    } else if first_refused(tensors.drop_last()) is Some {
        taken_before_refusal(tensors.drop_last())
    } else if stored_error(tensors.last()@) is Some {
        tensors.len() - 1
    } else {
        tensors.len() as int
    }
}

/// Each stored tensor fills the next buffer.
pub open spec fn uploads_match(
    uploads: Seq<Upload>,
    buffers: int,
    tensors: Seq<StoredTensor>,
) -> bool {
    &&& uploads.len() == tensors.len()
    &&& forall|i: int|
        0 <= i < uploads.len() ==> (#[trigger] uploads[i]).buffer == buffers + i
            && uploads[i].source == tensors[i].dtype && uploads[i].data == tensors[i].data
}

impl WeightMap {
    /// Takes over stored tensors in order, up to the first that cannot be taken
    /// over, which refuses the list.
    pub fn add_tensors<'data>(
        &mut self,
        device: &mut DeviceMemory,
        tensors: Vec<StoredTensor<'data>>,
    ) -> (result: Result<Vec<Upload<'data>>, ModelError>)
        ensures
            final(device)@.words == old(device)@.words,
            match first_refused(tensors@) {
                Some(error) => {
                    let taken = tensors@.take(taken_before_refusal(tensors@));
                    &&& result == Err::<Vec<Upload<'data>>, ModelError>(error)
                    &&& final(self)@ == taken_over(
                        old(self)@,
                        old(device).lens@.len() as int,
                        taken,
                    )
                    &&& final(device).lens@ == buffers_with(old(device).lens@, taken)
                },
                None => {
                    &&& result is Ok
                    &&& uploads_match(result->Ok_0@, old(device).lens@.len() as int, tensors@)
                    &&& final(self)@ == taken_over(
                        old(self)@,
                        old(device).lens@.len() as int,
                        tensors@,
                    )
                    &&& final(device).lens@ == buffers_with(old(device).lens@, tensors@)
                },
            },
    {
        let ghost buffers = device.lens@.len() as int;
        let mut uploads: Vec<Upload<'data>> = Vec::new();
        let mut n: usize = 0;
        assert(tensors@.take(0) =~= Seq::empty());
        assert(device.lens@ =~= buffers_with(old(device).lens@, tensors@.take(0)));
        while n < tensors.len()
            invariant
                n <= tensors@.len(),
                buffers == old(device).lens@.len(),
                device@.words == old(device)@.words,
                device.lens@ == buffers_with(old(device).lens@, tensors@.take(n as int)),
                first_refused(tensors@.take(n as int)) is None,
                uploads_match(uploads@, buffers, tensors@.take(n as int)),
                self@ == taken_over(old(self)@, buffers, tensors@.take(n as int)),
            decreases tensors.len() - n,
        {
            let ghost longer = tensors@.take(n + 1);
            proof {
                assert(longer.drop_last() =~= tensors@.take(n as int));
                assert(longer.last() == tensors@[n as int]);
                if first_refused(longer) is Some {
                    lemma_refused_prefix(tensors@, n + 1);
                }
            }
            if tensors[n].dtype == StoredDType::Other {
                return Err(ModelError::UnsupportedTensorDType);
            }
            let data = tensors[n].data;
            let buffer: usize = device.lens.len();
            let placed = match device.for_bytes(data.len(), tensors[n].shape.as_slice(), DType::F16) {
                Ok(placed) => placed,
                Err(error) => return Err(ModelError::Gpu(error)),
            };
            let name = tensors[n].name.clone();
            uploads.push(Upload { buffer, source: tensors[n].dtype, data });
            self.insert(name, placed);
            n += 1;
            assert(device.lens@ =~= buffers_with(old(device).lens@, tensors@.take(n as int)));
        }
        assert(tensors@.take(tensors@.len() as int) =~= tensors@);
        Ok(uploads)
    }

    /// Takes over the tensors of one file.
    pub fn add_file<'data>(&mut self, device: &mut DeviceMemory, bytes: &'data [u8]) -> (result:
        Result<Vec<Upload<'data>>, ModelError>)
        ensures
            final(device)@.words == old(device)@.words,
            match result {
                Ok(uploads) => exists|tensors: Seq<StoredTensor>|
                    {
                        &&& safetensors_contents(bytes@) == Some(#[trigger] by_name(tensors))
                        &&& distinct_names(tensors)
                        &&& first_refused(tensors) is None
                        &&& uploads_match(uploads@, old(device).lens@.len() as int, tensors)
                        &&& final(self)@ == taken_over(
                            old(self)@,
                            old(device).lens@.len() as int,
                            tensors,
                        )
                        &&& final(device).lens@ == buffers_with(old(device).lens@, tensors)
                    },
                Err(error) => {
                    ||| error == ModelError::Safetensors && (safetensors_contents(bytes@) is None
                        || long_number(header(bytes@), 0, false, false, 0))
                    ||| exists|tensors: Seq<StoredTensor>|
                        safetensors_contents(bytes@) == Some(#[trigger] by_name(tensors))
                            && distinct_names(tensors) && first_refused(tensors) == Some(error)
                },
            },
            result is Ok ==> !long_number(header(bytes@), 0, false, false, 0),
    {
        let tensors = stored_tensors(bytes)?;
        let ghost listed = tensors@;
        assert(safetensors_contents(bytes@) == Some(by_name(listed)));
        self.add_tensors(device, tensors)
    }
}

proof fn lemma_refused_prefix(tensors: Seq<StoredTensor>, n: int)
    requires
        0 <= n <= tensors.len(),
        first_refused(tensors.take(n)) is Some,
    ensures
        first_refused(tensors) == first_refused(tensors.take(n)),
        taken_before_refusal(tensors) == taken_before_refusal(tensors.take(n)),
    decreases tensors.len(),
{
    if n == tensors.len() {
        assert(tensors.take(n) =~= tensors);
    } else {
        let rest = tensors.drop_last();
        assert(rest.take(n) =~= tensors.take(n));
        lemma_refused_prefix(rest, n);
    }
}

proof fn lemma_by_name(tensors: Seq<StoredTensor>)
    requires
        distinct_names(tensors),
    ensures
        forall|i: int|
            0 <= i < tensors.len() ==> by_name(tensors).dom().contains((#[trigger] tensors[i]).name@)
                && by_name(tensors)[tensors[i].name@] == tensors[i]@,
        forall|name: Seq<char>| #[trigger]
            by_name(tensors).dom().contains(name) ==> exists|i: int|
                0 <= i < tensors.len() && (#[trigger] tensors[i]).name@ == name,
    decreases tensors.len(),
{
    if tensors.len() > 0 {
        let rest = tensors.drop_last();
        assert forall|i: int, j: int| 0 <= i < j < rest.len() implies (#[trigger] rest[i]).name@ != (
        #[trigger] rest[j]).name@ by {
            assert(rest[i] == tensors[i] && rest[j] == tensors[j]);
        }
        lemma_by_name(rest);
        assert forall|i: int| 0 <= i < tensors.len() implies by_name(tensors).dom().contains(
            (#[trigger] tensors[i]).name@,
        ) && by_name(tensors)[tensors[i].name@] == tensors[i]@ by {
            if i < rest.len() {
                assert(rest[i] == tensors[i]);
                assert(tensors[i].name@ != tensors[tensors.len() - 1].name@);
            }
        }
        assert forall|name: Seq<char>| #[trigger]
            by_name(tensors).dom().contains(name) implies exists|i: int|
            0 <= i < tensors.len() && (#[trigger] tensors[i]).name@ == name by {
            if name == tensors.last().name@ {
                assert(tensors[tensors.len() - 1].name@ == name);
            } else {
                assert(by_name(rest).dom().contains(name));
                let i = choose|i: int| 0 <= i < rest.len() && (#[trigger] rest[i]).name@ == name;
                assert(tensors[i].name@ == name);
            }
        }
    }
}

proof fn lemma_refused(tensors: Seq<StoredTensor>)
    ensures
        first_refused(tensors) is None <==> forall|i: int|
            0 <= i < tensors.len() ==> stored_error((#[trigger] tensors[i])@) is None,
        first_refused(tensors) is Some ==> exists|i: int|
            0 <= i < tensors.len() && stored_error((#[trigger] tensors[i])@) == first_refused(tensors),
    decreases tensors.len(),
{
    if tensors.len() > 0 {
        let rest = tensors.drop_last();
        lemma_refused(rest);
        assert(tensors[tensors.len() - 1] == tensors.last());
        assert(forall|i: int| 0 <= i < rest.len() ==> #[trigger] rest[i] == tensors[i]);
        if first_refused(rest) is Some {
            let i = choose|i: int|
                0 <= i < rest.len() && stored_error((#[trigger] rest[i])@) == first_refused(rest);
            assert(tensors[i] == rest[i]);
        } else if stored_error(tensors.last()@) is None {
            assert forall|i: int| 0 <= i < tensors.len() implies stored_error(
                (#[trigger] tensors[i])@,
            ) is None by {
                if i < rest.len() {
                    assert(rest[i] == tensors[i]);
                }
            }
        }
    }
}

proof fn lemma_taken_over(
    map: Map<Seq<char>, TensorModel>,
    buffers: int,
    tensors: Seq<StoredTensor>,
)
    requires
        distinct_names(tensors),
        buffers >= 0,
        buffers + tensors.len() <= usize::MAX,
    ensures
        taken_over(map, buffers, tensors).dom() == map.dom() + by_name(tensors).dom(),
        forall|name: Seq<char>|
            !by_name(tensors).dom().contains(name) && map.dom().contains(name) ==> #[trigger]
            taken_over(map, buffers, tensors)[name] == map[name],
        forall|i: int|
            0 <= i < tensors.len() ==> taken_over(map, buffers, tensors)[(
            #[trigger] tensors[i]).name@] == memory::whole_buffer(
                (buffers + i) as usize,
                tensors[i].shape@,
                DType::F16,
            ),
    decreases tensors.len(),
{
    if tensors.len() > 0 {
        let rest = tensors.drop_last();
        assert forall|i: int, j: int| 0 <= i < j < rest.len() implies (#[trigger] rest[i]).name@ != (
        #[trigger] rest[j]).name@ by {
            assert(rest[i] == tensors[i] && rest[j] == tensors[j]);
        }
        lemma_taken_over(map, buffers, rest);
        let last = tensors.last().name@;
        assert(taken_over(map, buffers, tensors).dom() =~= map.dom() + by_name(tensors).dom());
        assert forall|i: int| 0 <= i < tensors.len() implies taken_over(map, buffers, tensors)[(
        #[trigger] tensors[i]).name@] == memory::whole_buffer(
            (buffers + i) as usize,
            tensors[i].shape@,
            DType::F16,
        ) by {
            if i < rest.len() {
                assert(rest[i] == tensors[i]);
                assert(tensors[i].name@ != tensors[tensors.len() - 1].name@);
            }
        }
    } else {
        assert(map.dom() + by_name(tensors).dom() =~= map.dom());
    }
}

/// The data of a tensor that can be taken over fills its buffer to the end.
pub proof fn accepted_data_fills_its_buffer(
    stored: StoredModel,
    upload: Upload,
    buffer: usize,
    bytes: Seq<u8>,
)
    requires
        stored_error(stored) is None,
        upload.source == stored.dtype,
        upload.data@ == stored.data,
        bytes.len() == memory::whole_buffer(buffer, stored.shape, DType::F16).capacity,
    ensures
        upload.goes_into(bytes.len() as int),
        upload.data@.len() == bytes.len(),
        upload.filled(bytes).len() == bytes.len(),
{
    let elements = tensor::elements(stored.shape);
    assert(stored.data.len() == elements * 2);
    assert(elements * 2 % 2 == 0);
}

/// In whatever order a file lists its tensors: it is accepted if each of them
/// can be taken over, its names join those that were there, each tensor keeps
/// its shape, and the others stay as they were.
pub proof fn order_of_tensors_does_not_matter(
    map: Map<Seq<char>, TensorModel>,
    buffers: int,
    tensors: Seq<StoredTensor>,
    contents: Map<Seq<char>, StoredModel>,
    name: Seq<char>,
)
    requires
        distinct_names(tensors),
        contents == by_name(tensors),
        buffers >= 0,
        buffers + tensors.len() <= usize::MAX,
    ensures
        first_refused(tensors) is None <==> forall|other: Seq<char>| #[trigger]
            contents.dom().contains(other) ==> stored_error(contents[other]) is None,
        taken_over(map, buffers, tensors).dom() == map.dom() + contents.dom(),
        contents.dom().contains(name) ==> {
            let tensor = taken_over(map, buffers, tensors)[name];
            &&& tensor.shape == contents[name].shape
            &&& tensor.dtype == DType::F16
            &&& tensor.offset == 0
        },
        map.dom().contains(name) && !contents.dom().contains(name) ==> taken_over(
            map,
            buffers,
            tensors,
        )[name] == map[name],
{
    lemma_by_name(tensors);
    lemma_refused(tensors);
    lemma_taken_over(map, buffers, tensors);
    if first_refused(tensors) is None {
        assert forall|other: Seq<char>| #[trigger] contents.dom().contains(other) implies stored_error(
            contents[other],
        ) is None by {
            let i = choose|i: int| 0 <= i < tensors.len() && (#[trigger] tensors[i]).name@ == other;
            assert(contents[other] == tensors[i]@);
        }
    } else {
        let i = choose|i: int|
            0 <= i < tensors.len() && stored_error((#[trigger] tensors[i])@) == first_refused(
                tensors,
            );
        assert(contents.dom().contains(tensors[i].name@));
    }
    if contents.dom().contains(name) {
        let i = choose|i: int| 0 <= i < tensors.len() && (#[trigger] tensors[i]).name@ == name;
        assert(contents[name] == tensors[i]@);
    }
}

/// A tensor is filled from its own data: the buffer that a stored tensor is found in by
/// its name is the one that its upload names, and what is uploaded there is the data that
/// was stored under that name, of the stored type and shape.
pub proof fn a_tensor_is_filled_from_its_own_data(
    map: Map<Seq<char>, TensorModel>,
    buffers: int,
    tensors: Seq<StoredTensor>,
    uploads: Seq<Upload>,
    i: int,
)
    requires
        0 <= buffers,
        buffers + tensors.len() <= usize::MAX,
        distinct_names(tensors),
        uploads_match(uploads, buffers, tensors),
        0 <= i < tensors.len(),
    ensures
        ({
            let after = taken_over(map, buffers, tensors);
            let name = tensors[i].name@;
            &&& after.dom().contains(name)
            &&& after[name].place == (tensor::Place::Device { buffer: uploads[i].buffer })
            &&& after[name].offset == 0
            &&& after[name].shape == tensors[i].shape@
            &&& after[name].dtype == DType::F16
            &&& uploads[i].data == tensors[i].data
            &&& uploads[i].source == tensors[i].dtype
        }),
    decreases tensors.len(),
{
    let last = tensors.len() - 1;
    if i < last {
        let rest = tensors.drop_last();
        assert forall|a: int, b: int| 0 <= a < b < rest.len() implies (#[trigger] rest[a]).name@ != (
        #[trigger] rest[b]).name@ by {
            assert(rest[a] == tensors[a] && rest[b] == tensors[b]);
        }
        let shorter = uploads.drop_last();
        assert forall|n: int| 0 <= n < shorter.len() implies (#[trigger] shorter[n]).buffer == buffers
            + n && shorter[n].source == rest[n].dtype && shorter[n].data == rest[n].data by {
            assert(shorter[n] == uploads[n]);
            assert(rest[n] == tensors[n]);
        }
        a_tensor_is_filled_from_its_own_data(map, buffers, rest, shorter, i);
        assert(rest[i] == tensors[i]);
        assert(shorter[i] == uploads[i]);
        assert(tensors[i].name@ != tensors[last].name@);
    } else {
        assert(uploads[i].buffer == buffers + i);
    }
}

/// Tensors that are not in a list keep their buffers when the list is taken over.
pub proof fn other_tensors_stay_where_they_are(
    map: Map<Seq<char>, TensorModel>,
    buffers: int,
    tensors: Seq<StoredTensor>,
    name: Seq<char>,
)
    requires
        forall|i: int| 0 <= i < tensors.len() ==> (#[trigger] tensors[i]).name@ != name,
    ensures
        taken_over(map, buffers, tensors).dom().contains(name) <==> map.dom().contains(name),
        map.dom().contains(name) ==> taken_over(map, buffers, tensors)[name] == map[name],
    decreases tensors.len(),
{
    if tensors.len() > 0 {
        let rest = tensors.drop_last();
        assert forall|i: int| 0 <= i < rest.len() implies (#[trigger] rest[i]).name@ != name by {
            assert(rest[i] == tensors[i]);
        }
        other_tensors_stay_where_they_are(map, buffers, rest, name);
        assert(tensors[tensors.len() - 1].name@ != name);
    }
}

} // verus!
