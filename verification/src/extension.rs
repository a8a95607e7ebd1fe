//! The extension interface, the registry of available extensions, and the
//! mock extensions used to exercise extension calls.

use vstd::prelude::*;
use crate::fmt::{cat, digits, usize_to_dec};

verus! {

/// The kind of a declared extension parameter.
#[derive(Debug, Clone, Copy, PartialEq, Eq, Structural)]
pub enum ParamKind {
    /// A numeric argument: u64, i64, or an untyped integer constant.
    Int,
    /// A quoted string constant.
    Str,
    /// A sequence of bytes with starting offset and length.
    Slice,
}

/// Describes one declared parameter of an extension.
#[derive(Debug, Clone, Copy)]
pub struct ParamDesc {
    /// The parameter name used at call sites: `foo::bar(name=value)`.
    pub name: &'static str,
    /// The kind of value the parameter accepts.
    pub kind: ParamKind,
}

/// The argument passed to an extension at execution time; one per call-site
/// argument.
#[derive(Debug)]
pub enum ParamArg<'a> {
    /// A numeric argument.
    Int(u64),
    /// A quoted string constant.
    Str(&'a str),
    /// A read-only view of part of the output image.
    Slice { data: &'a [u8] },
}

/// An extension argument as contracts see it.
pub enum ArgV {
    Int(u64),
    Str(Seq<char>),
    Slice(Seq<u8>),
}

/// The contract view of one argument.
pub open spec fn arg_view(a: ParamArg) -> ArgV {
    match a {
        ParamArg::Int(x) => ArgV::Int(x),
        ParamArg::Str(t) => ArgV::Str(t@),
        ParamArg::Slice { data } => ArgV::Slice(data@),
    }
}

/// The contract view of an argument list.
pub open spec fn args_view(a: Seq<ParamArg>) -> Seq<ArgV> {
    a.map_values(|x: ParamArg| arg_view(x))
}

/// Implemented by every extension: a named producer of a fixed number of
/// output bytes.  The name and size are properties of the extension, so
/// repeated calls agree.
pub trait BrinkExtension {
    /// The name `name` returns.
    spec fn name_spec(&self) -> Seq<char>;

    /// The size `size` returns.
    spec fn size_spec(&self) -> usize;

    /// The bytes a successful `execute` leaves in an output area that held
    /// `out`, given arguments `args`.
    spec fn output_spec(&self, args: Seq<ArgV>, out: Seq<u8>) -> Seq<u8>;

    /// The namespace-qualified name used to invoke the extension.
    fn name(&self) -> (r: &str)
        ensures
            r@ == self.name_spec(),
    ;

    /// The exact number of bytes the extension writes.
    fn size(&self) -> (r: usize)
        ensures
            r == self.size_spec(),
    ;

    /// The declared parameters; none unless the extension declares some.
    fn params(&self) -> (r: &[ParamDesc])
        default_ensures
            r@ == Seq::<ParamDesc>::empty(),
    {
        &[]
    }

    /// Produces the extension output bytes into `out`; an `Err` aborts the
    /// compilation with its message.
    fn execute<'a>(&self, args: &[ParamArg<'a>], out: &mut [u8]) -> (r: Result<(), String>)
        ensures
            final(out)@.len() == old(out)@.len(),
            r is Ok ==> final(out)@ == self.output_spec(args_view(args@), old(out)@),
    ;
}

/// A registered extension with its size, which is asked once at
/// registration.
pub struct ExtensionEntry {
    pub name: String,
    pub extension: Box<dyn BrinkExtension>,
    pub cached_size: usize,
    /// The declared parameters, asked once at registration.
    pub cached_params: Vec<ParamDesc>,
}

/// The extensions available to a compilation, by name.
pub struct ExtensionRegistry {
    extensions: Vec<ExtensionEntry>,
}

/// `i` is the first entry registered under `name`.
pub open spec fn first_named(entries: Seq<(Seq<char>, usize)>, name: Seq<char>, i: int) -> bool {
    0 <= i < entries.len() && entries[i].0 == name && forall|j: int| 0 <= j < i ==> entries[j].0 != name
}

/// The cached size of the extension registered under `name`, if any.
pub open spec fn registered_size(entries: Seq<(Seq<char>, usize)>, name: Seq<char>) -> Option<usize> {
    if exists|i: int| first_named(entries, name, i) {
        Some(entries[choose|i: int| first_named(entries, name, i)].1)
    } else {
        None
    }
}

/// The (name, cached size) of every registered extension, in registration
/// order.
pub open spec fn entry_view(e: ExtensionEntry) -> (Seq<char>, usize) {
    (e.name@, e.cached_size)
}

impl ExtensionRegistry {
    pub closed spec fn entries(&self) -> Seq<(Seq<char>, usize)> {
        self.extensions@.map_values(|e: ExtensionEntry| entry_view(e))
    }

    /// The declared parameters of every registered extension, in
    /// registration order.
    pub closed spec fn param_lists(&self) -> Seq<Seq<ParamDesc>> {
        self.extensions@.map_values(|e: ExtensionEntry| e.cached_params@)
    }

    /// The declared parameters of the extension registered under `name`.
    pub open spec fn registered_params(&self, name: Seq<char>) -> Option<Seq<ParamDesc>> {
        if exists|i: int| first_named(self.entries(), name, i) {
            Some(self.param_lists()[choose|i: int| first_named(self.entries(), name, i)])
        } else {
            None
        }
    }

    /// The position of the extension registered under `name`.
    pub open spec fn name_index(&self, name: Seq<char>) -> int {
        choose|i: int| first_named(self.entries(), name, i)
    }

    /// The extension at position `i`.
    pub closed spec fn ext_at(&self, i: int) -> &Box<dyn BrinkExtension> {
        &self.extensions@[i].extension
    }

    /// Whether an extension called `name` is registered.
    pub open spec fn has(&self, name: Seq<char>) -> bool {
        exists|i: int| 0 <= i < self.entries().len() && self.entries()[i].0 == name
    }

    /// An empty registry.
    pub fn new() -> (r: ExtensionRegistry)
        ensures
            r.entries() == Seq::<(Seq<char>, usize)>::empty(),
    {
        let r = ExtensionRegistry { extensions: Vec::new() };
        proof { assert(r.entries() =~= Seq::<(Seq<char>, usize)>::empty()); }
        r
    }

    /// Registers an extension under its name, asking its size once.  A name
    /// that is already registered is refused with a message and the registry
    /// is unchanged.
    pub fn register(&mut self, ext: Box<dyn BrinkExtension>) -> (r: Result<(), String>)
        ensures
            old(self).has((*ext).name_spec()) ==> r is Err && final(self).entries() == old(self).entries()
                && r->Err_0@ == "Extension '"@ + (*ext).name_spec() + "' is already registered"@,
            !old(self).has((*ext).name_spec()) ==> r is Ok && final(self).entries() == old(self).entries().push(
                ((*ext).name_spec(), (*ext).size_spec()),
            ),
    {
        let name = String::from_str(ext.name());
        if self.find(name.as_str()).is_some() {
            proof {
                reveal_strlit("Extension '");
                reveal_strlit("' is already registered");
            }
            return Err(cat(cat(String::from_str("Extension '"), name.as_str()), "' is already registered"));
        }
        let cached_size = ext.size();
        let cached_params = vstd::slice::slice_to_vec(ext.params());
        let ghost nm = name@;
        let entry = make_entry(name, ext, cached_size, cached_params);
        let ghost before = self.extensions@;
        self.extensions.push(entry);
        proof {
            let m = self.extensions@.map_values(|e: ExtensionEntry| entry_view(e));
            assert(self.extensions@.len() == before.len() + 1);
            assert forall|k: int| 0 <= k < before.len() implies m[k] == entry_view(before[k]) by {
                assert(self.extensions@[k] == before[k]);
            }
            assert(m[before.len() as int] == (nm, cached_size));
            assert(m =~= before.map_values(|e: ExtensionEntry| entry_view(e)).push((nm, cached_size)));
        }
        Ok(())
    }

    fn find(&self, name: &str) -> (r: Option<usize>)
        ensures
            r is Some <==> self.has(name@),
            r matches Some(i) ==> first_named(self.entries(), name@, i as int),
    {
        let mut i: usize = 0;
        while i < self.extensions.len()
            invariant
                i <= self.extensions@.len(),
                forall|j: int| 0 <= j < i ==> self.entries()[j].0 != name@,
            decreases self.extensions@.len() - i,
        {
            proof {
                assert(self.entries()[i as int] == entry_view(self.extensions@[i as int]));
            }
            if string_eq(&self.extensions[i].name, name) {
                return Some(i);
            }
            i = i + 1;
        }
        None
    }

    /// The entry registered under `name`, if any.
    pub fn get(&self, name: &str) -> (r: Option<&ExtensionEntry>)
        ensures
            r is Some <==> self.has(name@),
            r is Some <==> registered_size(self.entries(), name@) is Some,
            r matches Some(e) ==> e.name@ == name@ && registered_size(self.entries(), name@) == Some(e.cached_size)
                && self.registered_params(name@) == Some(e.cached_params@),
            r matches Some(e) ==> &e.extension == self.ext_at(self.name_index(name@)),
    {
        match self.find(name) {
            Some(i) => {
                proof {
                    let c = choose|k: int| first_named(self.entries(), name@, k);
                    assert(first_named(self.entries(), name@, c));
                    if c < i {
                        assert(self.entries()[c].0 != name@);
                    } else if c > i {
                        assert(self.entries()[i as int].0 != name@);
                    }
                    assert(self.entries()[i as int] == entry_view(self.extensions@[i as int]));
                    assert(self.param_lists()[i as int] == self.extensions@[i as int].cached_params@);
                    assert(c == i);
                }
                Some(&self.extensions[i])
            },
            None => {
                proof {
                    if exists|k: int| first_named(self.entries(), name@, k) {
                        let c = choose|k: int| first_named(self.entries(), name@, k);
                        assert(self.has(name@));
                    }
                }
                None
            },
        }
    }

    /// The number of registered extensions.
    pub fn len(&self) -> (n: usize)
        ensures
            n == self.entries().len(),
    {
        self.extensions.len()
    }
}

fn make_entry(name: String, extension: Box<dyn BrinkExtension>, cached_size: usize, cached_params: Vec<ParamDesc>)
    -> (e: ExtensionEntry)
    ensures
        e.name == name,
        e.cached_size == cached_size,
        e.cached_params == cached_params,
{
    ExtensionEntry { name, extension, cached_size, cached_params }
}

/// String equality on characters.
pub fn string_eq(a: &String, b: &str) -> (r: bool)
    ensures
        r == (a@ == b@),
{
    let bs = String::from_str(b);
    *a == bs
}

/// The eight little-endian bytes of `v`.
pub open spec fn le_bytes(v: u64) -> Seq<u8> {
    Seq::new(8, |i: int| ((v >> ((8 * i) as u64)) & 0xff) as u8)
}

/// The four big-endian bytes of `v`.
pub open spec fn be_bytes_u32(v: u32) -> Seq<u8> {
    Seq::new(4, |i: int| ((v >> ((8 * (3 - i)) as u32)) & 0xff) as u8)
}

fn write_le(out: &mut [u8], v: u64)
    requires
        old(out)@.len() == 8,
    ensures
        final(out)@ == le_bytes(v),
{
    let mut i: usize = 0;
    while i < 8
        invariant
            i <= 8,
            out@.len() == 8,
            forall|k: int| 0 <= k < i ==> #[trigger] out@[k] == le_bytes(v)[k],
        decreases 8 - i,
    {
        let sh: u64 = 8 * (i as u64);
        assert(sh < 64);
        out[i] = ((v >> sh) & 0xff) as u8;
        i = i + 1;
    }
    proof { assert(out@ =~= le_bytes(v)); }
}

/// The sum of all bytes, wrapping at 2^64.
pub open spec fn byte_sum(s: Seq<u8>) -> int
    decreases s.len(),
{
    if s.len() == 0 { 0 } else { byte_sum(s.drop_last()) + s.last() }
}

pub open spec fn wrap64(x: int) -> u64 {
    (x % 0x1_0000_0000_0000_0000) as u64
}

pub open spec fn msg(s: &str) -> Seq<char> {
    s@
}

/// Writes its single numeric argument as four big-endian bytes.
pub struct MockCrc {}

impl MockCrc {
    pub fn new() -> (m: MockCrc) {
        MockCrc {}
    }
}

impl BrinkExtension for MockCrc {
    open spec fn name_spec(&self) -> Seq<char> {
        "brink::test_crc"@
    }

    open spec fn size_spec(&self) -> usize {
        4
    }

    open spec fn output_spec(&self, args: Seq<ArgV>, out: Seq<u8>) -> Seq<u8> {
        if args.len() == 1 && args[0] is Int {
            be_bytes_u32(args[0]->Int_0 as u32)
        } else {
            out
        }
    }

    fn name(&self) -> (r: &str) {
        "brink::test_crc"
    }

    fn size(&self) -> (r: usize) {
        4
    }

    fn params(&self) -> (r: &[ParamDesc])
        ensures
            r@ == seq![(ParamDesc { name: "value", kind: ParamKind::Int })],
    {
        &[ParamDesc { name: "value", kind: ParamKind::Int }]
    }

    fn execute<'a>(&self, args: &[ParamArg<'a>], out: &mut [u8]) -> (r: Result<(), String>)
        ensures
            args@.len() != 1 ==> r is Err && r->Err_0@ == "Expected exactly 1 argument for CRC"@,
            args@.len() == 1 && old(out)@.len() != 4 ==> r is Err && r->Err_0@
                == "Expected 4 bytes of output space"@,
            args@.len() == 1 && old(out)@.len() == 4 && !(args@[0] is Int) ==> r is Err && r->Err_0@
                == "Expected Int argument for CRC"@,
            r is Err ==> final(out)@ == old(out)@,
            r is Ok ==> args@.len() == 1 && args@[0] is Int && final(out)@ == be_bytes_u32(args@[0]->Int_0 as u32),
            args@.len() == 1 && old(out)@.len() == 4 && args@[0] is Int ==> r is Ok,
    {
        proof {
            reveal_strlit("Expected exactly 1 argument for CRC");
            reveal_strlit("Expected 4 bytes of output space");
            reveal_strlit("Expected Int argument for CRC");
        }
        if args.len() != 1 {
            return Err(String::from_str("Expected exactly 1 argument for CRC"));
        }
        if out.len() != 4 {
            return Err(String::from_str("Expected 4 bytes of output space"));
        }
        let v = match &args[0] {
            ParamArg::Int(v) => *v,
            _ => return Err(String::from_str("Expected Int argument for CRC")),
        };
        let val = v as u32;
        let mut i: usize = 0;
        while i < 4
            invariant
                i <= 4,
                out@.len() == 4,
                forall|k: int| 0 <= k < i ==> #[trigger] out@[k] == be_bytes_u32(val)[k],
            decreases 4 - i,
        {
            let sh: u32 = 8 * (3 - i as u32);
            assert(sh < 32);
            out[i] = ((val >> sh) & 0xff) as u8;
            i = i + 1;
        }
        proof { assert(out@ =~= be_bytes_u32(val)); }
        Ok(())
    }
}

/// Writes nothing and always fails.
pub struct MockLogger {}

impl MockLogger {
    pub fn new() -> (m: MockLogger) {
        MockLogger {}
    }
}

impl BrinkExtension for MockLogger {
    open spec fn name_spec(&self) -> Seq<char> {
        "brink::test_logger"@
    }

    open spec fn size_spec(&self) -> usize {
        0
    }

    open spec fn output_spec(&self, args: Seq<ArgV>, out: Seq<u8>) -> Seq<u8> {
        out
    }

    fn name(&self) -> (r: &str) {
        "brink::test_logger"
    }

    fn size(&self) -> (r: usize) {
        0
    }

    fn execute<'a>(&self, args: &[ParamArg<'a>], out: &mut [u8]) -> (r: Result<(), String>)
        ensures
            r is Err && r->Err_0@ == "Intentional mock fallback error"@,
            final(out)@ == old(out)@,
    {
        proof { reveal_strlit("Intentional mock fallback error"); }
        Err(String::from_str("Intentional mock fallback error"))
    }
}

/// Writes each byte of its slice argument plus one (wrapping).
pub struct MockIncrement {}

impl MockIncrement {
    pub fn new() -> (m: MockIncrement) {
        MockIncrement {}
    }
}

/// The slice carried by the first argument, if it is a slice.
/// The bytes of the first argument, when it is a slice.
pub open spec fn first_slice_v(args: Seq<ArgV>) -> Option<Seq<u8>> {
    if args.len() >= 1 && args[0] is Slice {
        Some(args[0]->Slice_0)
    } else {
        None
    }
}

pub open spec fn first_slice(args: Seq<ParamArg>) -> Option<Seq<u8>> {
    if args.len() >= 1 && args[0] is Slice {
        Some(args[0]->data@)
    } else {
        None
    }
}

impl BrinkExtension for MockIncrement {
    open spec fn name_spec(&self) -> Seq<char> {
        "brink::test_increment"@
    }

    open spec fn size_spec(&self) -> usize {
        16
    }

    open spec fn output_spec(&self, args: Seq<ArgV>, out: Seq<u8>) -> Seq<u8> {
        match first_slice_v(args) {
            Some(img) => Seq::new(out.len(), |i: int| ((img[i] + 1) % 256) as u8),
            None => out,
        }
    }

    fn name(&self) -> (r: &str) {
        "brink::test_increment"
    }

    fn size(&self) -> (r: usize) {
        16
    }

    fn params(&self) -> (r: &[ParamDesc])
        ensures
            r@ == seq![(ParamDesc { name: "data", kind: ParamKind::Slice })],
    {
        &[ParamDesc { name: "data", kind: ParamKind::Slice }]
    }

    fn execute<'a>(&self, args: &[ParamArg<'a>], out: &mut [u8]) -> (r: Result<(), String>)
        ensures
            args@.len() == 0 ==> r is Err && r->Err_0@ == "MockIncrement: expected ParamArg::Slice as args[0]"@,
            args@.len() >= 1 && !(args@[0] is Slice) ==> r is Err && r->Err_0@
                == "MockIncrement: args[0] must be ParamArg::Slice"@,
            r is Err ==> final(out)@ == old(out)@,
            r is Ok ==> (first_slice(args@) matches Some(img) && img.len() >= old(out)@.len()
                && final(out)@.len() == old(out)@.len() && forall|i: int| 0 <= i < final(out)@.len()
                ==> #[trigger] final(out)@[i] == ((img[i] + 1) % 256) as u8),
            first_slice(args@) matches Some(img) && img.len() < old(out)@.len() ==> r is Err && r->Err_0@
                == "MockIncrement: img_buffer must be at least as large as out_buffer"@,
            first_slice(args@) matches Some(img) && img.len() >= old(out)@.len() ==> r is Ok,
    {
        proof {
            reveal_strlit("MockIncrement: expected ParamArg::Slice as args[0]");
            reveal_strlit("MockIncrement: args[0] must be ParamArg::Slice");
            reveal_strlit("MockIncrement: img_buffer must be at least as large as out_buffer");
        }
        if args.len() == 0 {
            return Err(String::from_str("MockIncrement: expected ParamArg::Slice as args[0]"));
        }
        let img = match &args[0] {
            ParamArg::Slice { data } => *data,
            _ => return Err(String::from_str("MockIncrement: args[0] must be ParamArg::Slice")),
        };
        if img.len() < out.len() {
            return Err(String::from_str("MockIncrement: img_buffer must be at least as large as out_buffer"));
        }
        let mut i: usize = 0;
        while i < out.len()
            invariant
                i <= out@.len(),
                out@.len() == old(out)@.len(),
                img@.len() >= out@.len(),
                forall|k: int| 0 <= k < i ==> #[trigger] out@[k] == ((img@[k] + 1) % 256) as u8,
            decreases out@.len() - i,
        {
            out[i] = img[i].wrapping_add(1);
            i = i + 1;
        }
        Ok(())
    }
}

/// Writes the wrapping sum of the bytes of its slice argument as eight
/// little-endian bytes.
pub struct MockRangedSum {}

impl MockRangedSum {
    pub fn new() -> (m: MockRangedSum) {
        MockRangedSum {}
    }
}

impl BrinkExtension for MockRangedSum {
    open spec fn name_spec(&self) -> Seq<char> {
        "brink::test_ranged_sum"@
    }

    open spec fn size_spec(&self) -> usize {
        8
    }

    open spec fn output_spec(&self, args: Seq<ArgV>, out: Seq<u8>) -> Seq<u8> {
        match first_slice_v(args) {
            Some(img) => le_bytes(wrap64(byte_sum(img))),
            None => out,
        }
    }

    fn name(&self) -> (r: &str) {
        "brink::test_ranged_sum"
    }

    fn size(&self) -> (r: usize) {
        8
    }

    fn params(&self) -> (r: &[ParamDesc])
        ensures
            r@ == seq![(ParamDesc { name: "data", kind: ParamKind::Slice })],
    {
        &[ParamDesc { name: "data", kind: ParamKind::Slice }]
    }

    fn execute<'a>(&self, args: &[ParamArg<'a>], out: &mut [u8]) -> (r: Result<(), String>)
        ensures
            args@.len() == 0 ==> r is Err && r->Err_0@ == "MockRangedSum: expected ParamArg::Slice as args[0]"@,
            args@.len() >= 1 && !(args@[0] is Slice) ==> r is Err && r->Err_0@
                == "MockRangedSum: args[0] must be ParamArg::Slice"@,
            r is Err ==> final(out)@ == old(out)@,
            r is Ok ==> (first_slice(args@) matches Some(img) && old(out)@.len() == 8 && final(out)@ == le_bytes(
                wrap64(byte_sum(img)),
            )),
            first_slice(args@) is Some && old(out)@.len() != 8 ==> r is Err && r->Err_0@
                == "MockRangedSum: out_buffer must be exactly 8 bytes"@,
            first_slice(args@) is Some && old(out)@.len() == 8 ==> r is Ok,
    {
        proof {
            reveal_strlit("MockRangedSum: expected ParamArg::Slice as args[0]");
            reveal_strlit("MockRangedSum: args[0] must be ParamArg::Slice");
            reveal_strlit("MockRangedSum: out_buffer must be exactly 8 bytes");
        }
        if args.len() == 0 {
            return Err(String::from_str("MockRangedSum: expected ParamArg::Slice as args[0]"));
        }
        let img = match &args[0] {
            ParamArg::Slice { data } => *data,
            _ => return Err(String::from_str("MockRangedSum: args[0] must be ParamArg::Slice")),
        };
        if out.len() != 8 {
            return Err(String::from_str("MockRangedSum: out_buffer must be exactly 8 bytes"));
        }
        let mut sum: u64 = 0;
        let mut i: usize = 0;
        while i < img.len()
            invariant
                i <= img@.len(),
                sum == wrap64(byte_sum(img@.take(i as int))),
            decreases img@.len() - i,
        {
            proof {
                assert(img@.take(i as int + 1).drop_last() =~= img@.take(i as int));
                assert(byte_sum(img@.take(i as int + 1)) == byte_sum(img@.take(i as int)) + img@[i as int]);
                assert(wrap64(byte_sum(img@.take(i as int)) + img@[i as int]) == (sum + img@[i as int]) % 0x1_0000_0000_0000_0000) by (nonlinear_arith)
                    requires
                        sum == wrap64(byte_sum(img@.take(i as int)));
            }
            sum = sum.wrapping_add(img[i] as u64);
            i = i + 1;
        }
        proof { assert(img@.take(i as int) =~= img@); }
        write_le(out, sum);
        Ok(())
    }
}

/// Fails on an empty slice argument, else fills the output with 0xAB.
pub struct MockRejectEmpty {}

impl MockRejectEmpty {
    pub fn new() -> (m: MockRejectEmpty) {
        MockRejectEmpty {}
    }
}

impl BrinkExtension for MockRejectEmpty {
    open spec fn name_spec(&self) -> Seq<char> {
        "brink::test_reject_empty"@
    }

    open spec fn size_spec(&self) -> usize {
        4
    }

    open spec fn output_spec(&self, args: Seq<ArgV>, out: Seq<u8>) -> Seq<u8> {
        Seq::new(out.len(), |i: int| 0xABu8)
    }

    fn name(&self) -> (r: &str) {
        "brink::test_reject_empty"
    }

    fn size(&self) -> (r: usize) {
        4
    }

    fn params(&self) -> (r: &[ParamDesc])
        ensures
            r@ == seq![(ParamDesc { name: "data", kind: ParamKind::Slice })],
    {
        &[ParamDesc { name: "data", kind: ParamKind::Slice }]
    }

    fn execute<'a>(&self, args: &[ParamArg<'a>], out: &mut [u8]) -> (r: Result<(), String>)
        ensures
            args@.len() == 0 ==> r is Err && r->Err_0@ == "MockRejectEmpty: expected ParamArg::Slice as args[0]"@,
            args@.len() >= 1 && !(args@[0] is Slice) ==> r is Err && r->Err_0@
                == "MockRejectEmpty: args[0] must be ParamArg::Slice"@,
            (first_slice(args@) matches Some(img) && img.len() == 0) ==> r is Err && r->Err_0@
                == "brink::test_reject_empty: input range must not be empty"@,
            r is Err ==> final(out)@ == old(out)@,
            r is Ok ==> (first_slice(args@) matches Some(img) && img.len() > 0 && final(out)@.len() == old(out)@.len()
                && forall|i: int| 0 <= i < final(out)@.len() ==> #[trigger] final(out)@[i] == 0xAB),
            first_slice(args@) matches Some(img) && img.len() > 0 ==> r is Ok,
    {
        proof {
            reveal_strlit("MockRejectEmpty: expected ParamArg::Slice as args[0]");
            reveal_strlit("MockRejectEmpty: args[0] must be ParamArg::Slice");
            reveal_strlit("brink::test_reject_empty: input range must not be empty");
        }
        if args.len() == 0 {
            return Err(String::from_str("MockRejectEmpty: expected ParamArg::Slice as args[0]"));
        }
        let img = match &args[0] {
            ParamArg::Slice { data } => *data,
            _ => return Err(String::from_str("MockRejectEmpty: args[0] must be ParamArg::Slice")),
        };
        if img.len() == 0 {
            return Err(String::from_str("brink::test_reject_empty: input range must not be empty"));
        }
        let mut i: usize = 0;
        while i < out.len()
            invariant
                i <= out@.len(),
                out@.len() == old(out)@.len(),
                forall|k: int| 0 <= k < i ==> #[trigger] out@[k] == 0xAB,
            decreases out@.len() - i,
        {
            out[i] = 0xAB;
            i = i + 1;
        }
        Ok(())
    }
}

/// Writes the wrapping sum of its eight numeric arguments as eight
/// little-endian bytes.
pub struct MockSum8;

/// The wrapping sum of the first `k` numeric arguments.
/// The sum of the first `k` numeric arguments.
pub open spec fn int_argv_sum(args: Seq<ArgV>, k: int) -> int
    decreases k,
{
    if k <= 0 { 0 } else { int_argv_sum(args, k - 1) + args[k - 1]->Int_0 }
}

/// The two sums agree on numeric arguments.
proof fn lemma_int_sums(args: Seq<ParamArg>, k: int)
    requires
        0 <= k <= args.len(),
        forall|i: int| 0 <= i < k ==> #[trigger] args[i] is Int,
    ensures
        int_args_sum(args, k) == int_argv_sum(args_view(args), k),
    decreases k,
{
    if k > 0 {
        lemma_int_sums(args, k - 1);
        assert(args_view(args)[k - 1] == arg_view(args[k - 1]));
    }
}

pub open spec fn int_args_sum(args: Seq<ParamArg>, k: int) -> int
    decreases k,
{
    if k <= 0 { 0 } else { int_args_sum(args, k - 1) + args[k - 1]->Int_0 }
}

impl BrinkExtension for MockSum8 {
    open spec fn name_spec(&self) -> Seq<char> {
        "brink::test_sum8"@
    }

    open spec fn size_spec(&self) -> usize {
        8
    }

    open spec fn output_spec(&self, args: Seq<ArgV>, out: Seq<u8>) -> Seq<u8> {
        le_bytes(wrap64(int_argv_sum(args, 8)))
    }

    fn name(&self) -> (r: &str) {
        "brink::test_sum8"
    }

    fn size(&self) -> (r: usize) {
        8
    }

    fn params(&self) -> (r: &[ParamDesc])
        ensures
            r@ == seq![
                (ParamDesc { name: "a", kind: ParamKind::Int }),
                (ParamDesc { name: "b", kind: ParamKind::Int }),
                (ParamDesc { name: "c", kind: ParamKind::Int }),
                (ParamDesc { name: "d", kind: ParamKind::Int }),
                (ParamDesc { name: "e", kind: ParamKind::Int }),
                (ParamDesc { name: "f", kind: ParamKind::Int }),
                (ParamDesc { name: "g", kind: ParamKind::Int }),
                (ParamDesc { name: "h", kind: ParamKind::Int }),
            ],
    {
        &[
            ParamDesc { name: "a", kind: ParamKind::Int },
            ParamDesc { name: "b", kind: ParamKind::Int },
            ParamDesc { name: "c", kind: ParamKind::Int },
            ParamDesc { name: "d", kind: ParamKind::Int },
            ParamDesc { name: "e", kind: ParamKind::Int },
            ParamDesc { name: "f", kind: ParamKind::Int },
            ParamDesc { name: "g", kind: ParamKind::Int },
            ParamDesc { name: "h", kind: ParamKind::Int },
        ]
    }

    fn execute<'a>(&self, args: &[ParamArg<'a>], out: &mut [u8]) -> (r: Result<(), String>)
        ensures
            args@.len() != 8 ==> r is Err && r->Err_0@ == "brink::test_sum8: expected 8 args, got "@ + digits(
                args@.len(),
                10,
            ),
            args@.len() == 8 && (exists|i: int| 0 <= i < 8 && !(args@[i] is Int)) ==> r is Err,
            r is Err ==> final(out)@ == old(out)@,
            r is Ok ==> args@.len() == 8 && old(out)@.len() == 8 && (forall|i: int| 0 <= i < 8 ==> #[trigger] args@[i] is Int)
                && final(out)@ == le_bytes(wrap64(int_args_sum(args@, 8))),
            args@.len() == 8 && (forall|i: int| 0 <= i < 8 ==> #[trigger] args@[i] is Int) && old(out)@.len() != 8
                ==> r is Err && r->Err_0@ == "brink::test_sum8: output buffer must be exactly 8 bytes"@,
            args@.len() == 8 && (forall|i: int| 0 <= i < 8 ==> #[trigger] args@[i] is Int) && old(out)@.len() == 8
                ==> r is Ok,
    {
        proof {
            reveal_strlit("brink::test_sum8: expected 8 args, got ");
            reveal_strlit("brink::test_sum8: output buffer must be exactly 8 bytes");
        }
        if args.len() != 8 {
            return Err(cat(String::from_str("brink::test_sum8: expected 8 args, got "), usize_to_dec(args.len()).as_str()));
        }
        let mut sum: u64 = 0;
        let mut i: usize = 0;
        while i < 8
            invariant
                i <= 8,
                args@.len() == 8,
                forall|k: int| 0 <= k < i ==> #[trigger] args@[k] is Int,
                sum == wrap64(int_args_sum(args@, i as int)),
            decreases 8 - i,
        {
            let v = match &args[i] {
                ParamArg::Int(v) => *v,
                _ => {
                    return Err(cat(cat(String::from_str("brink::test_sum8: arg "), usize_to_dec(i).as_str()),
                        " must be ParamArg::Int"));
                },
            };
            proof {
                assert(int_args_sum(args@, i as int + 1) == int_args_sum(args@, i as int) + v);
                assert(wrap64(int_args_sum(args@, i as int) + v) == (sum + v) % 0x1_0000_0000_0000_0000) by (nonlinear_arith)
                    requires
                        sum == wrap64(int_args_sum(args@, i as int));
            }
            sum = sum.wrapping_add(v);
            i = i + 1;
        }
        if out.len() != 8 {
            return Err(String::from_str("brink::test_sum8: output buffer must be exactly 8 bytes"));
        }
        proof {
            lemma_int_sums(args@, 8);
        }
        write_le(out, sum);
        Ok(())
    }
}

/// Reports the largest possible size, so that any write of it overflows
/// the location counter; it is never executed.
pub struct MockHugeExt;

impl BrinkExtension for MockHugeExt {
    open spec fn name_spec(&self) -> Seq<char> {
        "brink::test_huge_ext"@
    }

    open spec fn size_spec(&self) -> usize {
        usize::MAX
    }

    open spec fn output_spec(&self, args: Seq<ArgV>, out: Seq<u8>) -> Seq<u8> {
        out
    }

    fn name(&self) -> (r: &str) {
        "brink::test_huge_ext"
    }

    fn size(&self) -> (r: usize) {
        usize::MAX
    }

    fn execute<'a>(&self, args: &[ParamArg<'a>], out: &mut [u8]) -> (r: Result<(), String>)
        ensures
            r is Err && r->Err_0@ == "brink::test_huge_ext: never executed; its size overflows the location counter"@,
            final(out)@ == old(out)@,
    {
        Err(String::from_str("brink::test_huge_ext: never executed; its size overflows the location counter"))
    }
}

/// Registers every mock extension.
pub fn register_test_extensions(reg: &mut ExtensionRegistry)
    requires
        old(reg).entries() == Seq::<(Seq<char>, usize)>::empty(),
    ensures
        final(reg).entries() == seq![
            ("brink::test_crc"@, 4usize),
            ("brink::test_logger"@, 0usize),
            ("brink::test_huge_ext"@, usize::MAX),
            ("brink::test_sum8"@, 8usize),
            ("brink::test_increment"@, 16usize),
            ("brink::test_ranged_sum"@, 8usize),
            ("brink::test_reject_empty"@, 4usize),
        ],
{
    proof {
        reveal_strlit("brink::test_crc");
        reveal_strlit("brink::test_logger");
        reveal_strlit("brink::test_huge_ext");
        reveal_strlit("brink::test_sum8");
        reveal_strlit("brink::test_increment");
        reveal_strlit("brink::test_ranged_sum");
        reveal_strlit("brink::test_reject_empty");
    }
    let _ = reg.register(Box::new(MockCrc::new()));
    let _ = reg.register(Box::new(MockLogger::new()));
    let _ = reg.register(Box::new(MockHugeExt));
    let _ = reg.register(Box::new(MockSum8));
    let _ = reg.register(Box::new(MockIncrement::new()));
    let _ = reg.register(Box::new(MockRangedSum::new()));
    let _ = reg.register(Box::new(MockRejectEmpty::new()));
}

} // verus!
