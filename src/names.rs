//! Validated names: file names, paths and service names, and the decimal
//! spelling of identifiers that the artifacts' names are built from.

use vstd::prelude::*;

verus! {

/// The longest file name, in bytes.
pub const FILE_NAME_LENGTH: usize = 255;

/// The longest path, in bytes.
pub const PATH_LENGTH: usize = 4096;

/// The longest service name, in bytes.
pub const SERVICE_NAME_LENGTH: usize = 255;

/// Why a byte string was not accepted as a name.
#[derive(Debug, Clone, Copy, PartialEq, Eq, Hash)]
pub enum SemanticStringError {
    InvalidContent,
    ExceedsMaximumLength,
}

/// A byte that may stand in a file name: no path separator and no NUL.
pub open spec fn is_file_name_byte(b: u8) -> bool {
    b != 47u8 && b != 0u8
}

/// The content rule of a file name: no forbidden byte, and neither `.` nor `..`.
pub open spec fn is_valid_file_name_content(s: Seq<u8>) -> bool {
    &&& s.len() > 0
    &&& forall|i: int| 0 <= i < s.len() ==> is_file_name_byte(#[trigger] s[i])
    &&& s != seq![46u8]
    &&& s != seq![46u8, 46u8]
}

pub open spec fn is_valid_file_name(s: Seq<u8>) -> bool {
    is_valid_file_name_content(s) && s.len() <= FILE_NAME_LENGTH
}

/// A path holds no NUL byte.
pub open spec fn is_valid_path(s: Seq<u8>) -> bool {
    &&& s.len() <= PATH_LENGTH
    &&& forall|i: int| 0 <= i < s.len() ==> #[trigger] s[i] != 0u8
}

/// A service name is a nonempty byte string without a NUL byte.
pub open spec fn is_valid_service_name(s: Seq<u8>) -> bool {
    &&& 0 < s.len() <= SERVICE_NAME_LENGTH
    &&& forall|i: int| 0 <= i < s.len() ==> #[trigger] s[i] != 0u8
}

/// The decimal digits of `n`, most significant first, in ASCII.
pub open spec fn decimal(n: nat) -> Seq<u8>
    decreases n,
{
    if n < 10 {
        seq![(48 + n) as u8]
    } else {
        decimal(n / 10).push((48 + n % 10) as u8)
    }
}

pub open spec fn pow10(k: nat) -> nat
    decreases k,
{
    if k == 0 {
        1
    } else {
        10 * pow10((k - 1) as nat)
    }
}

/// The decimal spelling of a number below `10^k` has at most `k` digits, all of
/// them ASCII digits.
pub proof fn lemma_decimal_digits(n: nat, k: nat)
    requires
        k >= 1,
        n < pow10(k),
    ensures
        0 < decimal(n).len() <= k,
        forall|i: int| 0 <= i < decimal(n).len() ==> 48 <= #[trigger] decimal(n)[i] <= 57,
    decreases n,
{
    if n >= 10 {
        if k == 1 {
            assert(pow10(1) == 10 * pow10(0));
        }
        assert(pow10(k) == 10 * pow10((k - 1) as nat));
        lemma_decimal_digits(n / 10, (k - 1) as nat);
    }
}

/// Appends the decimal digits of `n` to `out`.
pub fn push_decimal(n: u128, out: &mut Vec<u8>)
    ensures
        final(out)@ == old(out)@ + decimal(n as nat),
    decreases n,
{
    if n >= 10 {
        push_decimal(n / 10, out);
    }
    out.push((48 + n % 10) as u8);
    proof {
        if n < 10 {
            assert(decimal(n as nat) =~= seq![(48 + n) as u8]);
        }
    }
    assert(out@ =~= old(out)@ + decimal(n as nat));
}

fn all_bytes_valid(value: &[u8], allow_slash: bool) -> (r: bool)
    ensures
        r == forall|i: int|
            0 <= i < value@.len() ==> #[trigger] value@[i] != 0u8 && (allow_slash || value@[i] != 47u8),
{
    let mut i: usize = 0;
    while i < value.len()
        invariant
            i <= value@.len(),
            forall|k: int| 0 <= k < i ==> #[trigger] value@[k] != 0u8 && (allow_slash || value@[k] != 47u8),
        decreases value@.len() - i,
    {
        if value[i] == 0u8 || (!allow_slash && value[i] == 47u8) {
            return false;
        }
        i = i + 1;
    }
    true
}

fn is_dot_name(value: &[u8]) -> (r: bool)
    ensures
        r == (value@ == seq![46u8] || value@ == seq![46u8, 46u8]),
{
    if value.len() == 1 {
        let r = value[0] == 46u8;
        assert(r ==> value@ =~= seq![46u8]);
        r
    } else if value.len() == 2 {
        let r = value[0] == 46u8 && value[1] == 46u8;
        assert(r ==> value@ =~= seq![46u8, 46u8]);
        r
    } else {
        false
    }
}

pub fn to_vec(value: &[u8]) -> (r: Vec<u8>)
    ensures
        r@ == value@,
{
    let mut v: Vec<u8> = Vec::new();
    let mut i: usize = 0;
    while i < value.len()
        invariant
            i <= value@.len(),
            v@ == value@.subrange(0, i as int),
        decreases value@.len() - i,
    {
        v.push(value[i]);
        i = i + 1;
        assert(v@ =~= value@.subrange(0, i as int));
    }
    assert(v@ =~= value@);
    v
}

/// The name of a file, without a directory.
#[derive(Debug, Clone, PartialEq, Eq, Hash)]
pub struct FileName {
    value: Vec<u8>,
}

impl FileName {
    pub closed spec fn view(&self) -> Seq<u8> {
        self.value@
    }

    /// Creates a file name; the bytes must form a valid one.
    pub fn new(value: &[u8]) -> (r: Result<Self, SemanticStringError>)
        ensures
            r matches Ok(f) ==> f@ == value@,
            r is Ok <==> is_valid_file_name(value@),
            r == Err::<Self, _>(SemanticStringError::ExceedsMaximumLength) <==> (
            is_valid_file_name_content(value@) && value@.len() > FILE_NAME_LENGTH),
            r == Err::<Self, _>(SemanticStringError::InvalidContent) <==> !is_valid_file_name_content(value@),
    {
        if value.len() == 0 || !all_bytes_valid(value, false) || is_dot_name(value) {
            return Err(SemanticStringError::InvalidContent);
        }
        if value.len() > FILE_NAME_LENGTH {
            return Err(SemanticStringError::ExceedsMaximumLength);
        }
        Ok(FileName { value: to_vec(value) })
    }

    /// Wraps bytes that are known to form a valid file name.
    pub fn from_valid(value: Vec<u8>) -> (r: Self)
        requires
            is_valid_file_name(value@),
        ensures
            r@ == value@,
    {
        FileName { value }
    }

    /// Returns the bytes of the name.
    pub fn as_bytes(&self) -> (r: &[u8])
        ensures
            r@ == self@,
    {
        self.value.as_slice()
    }

    /// Returns the length of the name in bytes.
    pub fn len(&self) -> (r: usize)
        ensures
            r == self@.len(),
    {
        self.value.len()
    }

    /// Appends one byte, where the result is still a valid file name; otherwise
    /// the name is left as it was.
    pub fn push(&mut self, b: u8) -> (r: Result<(), SemanticStringError>)
        requires
            is_valid_file_name(old(self)@),
        ensures
            is_valid_file_name(final(self)@),
            r is Ok <==> is_valid_file_name(old(self)@.push(b)),
            r is Ok ==> final(self)@ == old(self)@.push(b),
            r is Err ==> final(self)@ == old(self)@,
    {
        let mut one: Vec<u8> = Vec::new();
        one.push(b);
        proof {
            assert(old(self)@ + one@ =~= old(self)@.push(b));
        }
        self.push_bytes(one.as_slice())
    }

    /// Appends bytes, where the result is still a valid file name; otherwise the
    /// name is left as it was.
    pub fn push_bytes(&mut self, bytes: &[u8]) -> (r: Result<(), SemanticStringError>)
        requires
            is_valid_file_name(old(self)@),
        ensures
            is_valid_file_name(final(self)@),
            r is Ok <==> is_valid_file_name(old(self)@ + bytes@),
            r is Ok ==> final(self)@ == old(self)@ + bytes@,
            r is Err ==> final(self)@ == old(self)@,
    {
        let ghost joined = self@ + bytes@;
        if !all_bytes_valid(bytes, false) {
            proof {
                let k = choose|k: int| 0 <= k < bytes@.len() && !(#[trigger] bytes@[k] != 0u8 && bytes@[k] != 47u8);
                assert(joined[self@.len() + k] == bytes@[k]);
            }
            return Err(SemanticStringError::InvalidContent);
        }
        if bytes.len() > FILE_NAME_LENGTH - self.value.len() {
            return Err(SemanticStringError::ExceedsMaximumLength);
        }
        let mut i: usize = 0;
        while i < bytes.len()
            invariant
                i <= bytes@.len(),
                self@ == old(self)@ + bytes@.subrange(0, i as int),
            decreases bytes@.len() - i,
        {
            self.value.push(bytes[i]);
            i = i + 1;
            assert(self@ =~= old(self)@ + bytes@.subrange(0, i as int));
        }
        assert(self@ =~= joined);
        proof {
            if bytes@.len() > 0 {
                assert(joined.len() >= 2 ==> joined != seq![46u8]);
                assert(joined[0] == old(self)@[0]);
                if joined == seq![46u8, 46u8] {
                    assert(old(self)@ =~= seq![46u8]);
                }
            } else {
                assert(joined =~= old(self)@);
            }
        }
        Ok(())
    }
}

/// A path in the file system.
#[derive(Debug, Clone, PartialEq, Eq, Hash)]
pub struct Path {
    value: Vec<u8>,
}

impl Path {
    pub closed spec fn view(&self) -> Seq<u8> {
        self.value@
    }

    /// Creates a path; the bytes must form a valid one.
    pub fn new(value: &[u8]) -> (r: Result<Self, SemanticStringError>)
        ensures
            r is Ok <==> is_valid_path(value@),
            r matches Ok(p) ==> p@ == value@,
            r == Err::<Self, _>(SemanticStringError::InvalidContent) <==> exists|i: int|
                0 <= i < value@.len() && #[trigger] value@[i] == 0u8,
    {
        if !all_bytes_valid(value, true) {
            return Err(SemanticStringError::InvalidContent);
        }
        if value.len() > PATH_LENGTH {
            return Err(SemanticStringError::ExceedsMaximumLength);
        }
        Ok(Path { value: to_vec(value) })
    }

    /// Wraps bytes that are known to form a valid path.
    pub fn from_valid(value: Vec<u8>) -> (r: Self)
        requires
            is_valid_path(value@),
        ensures
            r@ == value@,
    {
        Path { value }
    }

    /// Returns a copy of the path.
    pub fn clone_path(&self) -> (r: Path)
        ensures
            r@ == self@,
    {
        Path { value: to_vec(self.value.as_slice()) }
    }

    /// Returns the bytes of the path.
    pub fn as_bytes(&self) -> (r: &[u8])
        ensures
            r@ == self@,
    {
        self.value.as_slice()
    }

    /// Appends bytes, where the result is still a valid path; otherwise the path
    /// is left as it was.
    pub fn push_bytes(&mut self, bytes: &[u8]) -> (r: Result<(), SemanticStringError>)
        requires
            is_valid_path(old(self)@),
        ensures
            is_valid_path(final(self)@),
            r is Ok <==> is_valid_path(old(self)@ + bytes@),
            r is Ok ==> final(self)@ == old(self)@ + bytes@,
            r is Err ==> final(self)@ == old(self)@,
    {
        let ghost joined = self@ + bytes@;
        if !all_bytes_valid(bytes, true) {
            proof {
                let k = choose|k: int| 0 <= k < bytes@.len() && !(#[trigger] bytes@[k] != 0u8 && (true || bytes@[k] != 47u8));
                assert(joined[self@.len() + k] == bytes@[k]);
            }
            return Err(SemanticStringError::InvalidContent);
        }
        if bytes.len() > PATH_LENGTH - self.value.len() {
            return Err(SemanticStringError::ExceedsMaximumLength);
        }
        let mut i: usize = 0;
        while i < bytes.len()
            invariant
                i <= bytes@.len(),
                self@ == old(self)@ + bytes@.subrange(0, i as int),
            decreases bytes@.len() - i,
        {
            self.value.push(bytes[i]);
            i = i + 1;
            assert(self@ =~= old(self)@ + bytes@.subrange(0, i as int));
        }
        assert(self@ =~= joined);
        Ok(())
    }
}

/// The name of a service.
#[derive(Debug, Clone, PartialEq, Eq, Hash)]
pub struct ServiceName {
    value: Vec<u8>,
}

impl ServiceName {
    pub closed spec fn view(&self) -> Seq<u8> {
        self.value@
    }

    /// Creates a service name; the bytes must form a valid one.
    pub fn new(value: &[u8]) -> (r: Result<Self, SemanticStringError>)
        ensures
            r is Ok <==> is_valid_service_name(value@),
            r matches Ok(n) ==> n@ == value@,
            r == Err::<Self, _>(SemanticStringError::ExceedsMaximumLength) <==> (
            value@.len() > SERVICE_NAME_LENGTH),
    {
        if value.len() > SERVICE_NAME_LENGTH {
            return Err(SemanticStringError::ExceedsMaximumLength);
        }
        if value.len() == 0 || !all_bytes_valid(value, true) {
            return Err(SemanticStringError::InvalidContent);
        }
        Ok(ServiceName { value: to_vec(value) })
    }

    /// Returns the bytes of the name.
    pub fn as_bytes(&self) -> (r: &[u8])
        ensures
            r@ == self@,
    {
        self.value.as_slice()
    }

    /// Returns a copy of the name.
    pub fn clone_name(&self) -> (r: ServiceName)
        ensures
            r@ == self@,
    {
        ServiceName { value: to_vec(self.value.as_slice()) }
    }

    /// Compares two service names byte by byte.
    pub fn equals(&self, other: &ServiceName) -> (r: bool)
        ensures
            r == (self@ == other@),
    {
        bytes_equal(self.value.as_slice(), other.value.as_slice())
    }
}

/// Compares two byte strings.
pub fn bytes_equal(a: &[u8], b: &[u8]) -> (r: bool)
    ensures
        r == (a@ == b@),
{
    if a.len() != b.len() {
        return false;
    }
    let mut i: usize = 0;
    while i < a.len()
        invariant
            i <= a@.len(),
            a@.len() == b@.len(),
            forall|k: int| 0 <= k < i ==> a@[k] == b@[k],
        decreases a@.len() - i,
    {
        if a[i] != b[i] {
            return false;
        }
        i = i + 1;
    }
    assert(a@ =~= b@);
    true
}

} // verus!
