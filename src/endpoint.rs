use vstd::prelude::*;

verus! {

/// The views of a sequence of strings.
pub open spec fn str_views(v: Seq<String>) -> Seq<Seq<char>> {
    v.map_values(|s: String| s@)
}

/// The view of an optional string.
pub open spec fn opt_view(o: Option<String>) -> Option<Seq<char>> {
    match o {
        Some(s) => Some(s@),
        None => None,
    }
}

/// Shape of one top-level function, as read from a source file.
#[derive(Debug)]
pub struct FnSignature {
    /// The function's name.
    pub name: String,
    /// How many parameters it declares.
    pub param_count: usize,
    /// Text of the type of its second parameter, where it has one.
    pub payload_type: Option<String>,
    /// Text of its declared return type, where it declares one.
    pub return_type: Option<String>,
    /// Text of the type of its first parameter, where it has one.
    pub credential_type: Option<String>,
}

/// What the generator knows of one handler function.
#[derive(Debug)]
pub struct EndpointDescriptor {
    /// Directory names between the scanned root and the file, outer first.
    pub path_segments: Vec<String>,
    /// Base name of the source file, which names its module.
    pub module_name: String,
    /// Name of the handler function.
    pub function_name: String,
    /// Type text of the payload (second) parameter, where there is one.
    pub payload_type: Option<String>,
    /// Type text of the return value, where one is declared.
    pub return_type: Option<String>,
    /// Whether the handler declares the credential (first) parameter.
    pub takes_credential: bool,
    /// File the handler was read from, for diagnostics.
    pub source_location: String,
}

/// Shape of a function as plain values: name, parameter count, text of the
/// second parameter's type, text of the return type, text of the first
/// parameter's type.
pub type FnShape = (Seq<char>, nat, Option<Seq<char>>, Option<Seq<char>>, Option<Seq<char>>);

/// The shape of a signature.
pub open spec fn shape_of(s: FnSignature) -> FnShape {
    (
        s.name@,
        s.param_count as nat,
        opt_view(s.payload_type),
        opt_view(s.return_type),
        opt_view(s.credential_type),
    )
}

/// Whether `d` is the descriptor of a function of shape `f`, read from the
/// file `source` of module `module` under the directories `dirs`.
pub open spec fn describes(
    d: EndpointDescriptor,
    dirs: Seq<Seq<char>>,
    module: Seq<char>,
    source: Seq<char>,
    f: FnShape,
) -> bool {
    &&& str_views(d.path_segments@) == dirs
    &&& d.module_name@ == module
    &&& d.function_name@ == f.0
    &&& opt_view(d.payload_type) == (if f.1 >= 2 {
        f.2
    } else {
        None
    })
    &&& opt_view(d.return_type) == f.3
    &&& d.takes_credential == (f.1 >= 1)
    &&& d.source_location@ == source
}

/// Whether a function keeps the positional convention: where it has
/// parameters, the first one is the credential, a `String`.
pub open spec fn credential_convention_kept(f: FnShape) -> bool {
    f.1 == 0 || f.4 == Some("String"@)
}

/// Whether `sig` keeps the positional convention: where it has parameters,
/// the first one is the credential, a `String`. A function that breaks it
/// would have its first parameter taken as the credential all the same.
pub fn keeps_credential_convention(sig: &FnSignature) -> (r: bool)
    ensures
        r == credential_convention_kept(shape_of(*sig)),
{
    if sig.param_count == 0 {
        return true;
    }
    match &sig.credential_type {
        Some(t) => crate::text::str_eq(t.as_str(), "String"),
        None => false,
    }
}

/// A copy of a list of strings.
pub fn copy_strings(v: &Vec<String>) -> (r: Vec<String>)
    ensures
        str_views(r@) == str_views(v@),
{
    let mut r: Vec<String> = Vec::new();
    let mut i: usize = 0;
    while i < v.len()
        invariant
            i <= v.len(),
            str_views(r@) =~= str_views(v@.subrange(0, i as int)),
        decreases v.len() - i,
    {
        let ghost old_r = r@;
        let c = v[i].clone();
        r.push(c);
        assert(v@.subrange(0, i + 1) =~= v@.subrange(0, i as int).push(v@[i as int]));
        assert(str_views(r@) =~= str_views(old_r).push(c@));
        assert(str_views(v@.subrange(0, i + 1)) =~= str_views(v@.subrange(0, i as int)).push(
            v@[i as int]@,
        ));
        i = i + 1;
    }
    assert(v@.subrange(0, v.len() as int) =~= v@);
    r
}

pub fn copy_opt(o: &Option<String>) -> (r: Option<String>)
    ensures
        opt_view(r) == opt_view(*o),
{
    match o {
        Some(s) => Some(s.clone()),
        None => None,
    }
}

/// The descriptors of the functions `sigs`, in order, read from the file
/// `source` of module `module` under the directories `dirs`. The first
/// parameter is the credential and never the payload.
pub fn describe(dirs: &Vec<String>, module: &str, source: &str, sigs: &Vec<FnSignature>) -> (r: Vec<EndpointDescriptor>)
    ensures
        r.len() == sigs.len(),
        forall|i: int|
            0 <= i < r.len() ==> describes(#[trigger] r[i], str_views(dirs@), module@, source@, shape_of(sigs[i])),
{
    let mut r: Vec<EndpointDescriptor> = Vec::new();
    let mut i: usize = 0;
    while i < sigs.len()
        invariant
            i <= sigs.len(),
            r.len() == i,
            forall|k: int|
                0 <= k < i ==> describes(#[trigger] r[k], str_views(dirs@), module@, source@, shape_of(sigs[k])),
        decreases sigs.len() - i,
    {
        let sig = &sigs[i];
        let payload = if sig.param_count >= 2 {
            copy_opt(&sig.payload_type)
        } else {
            None
        };
        let d = EndpointDescriptor {
            path_segments: copy_strings(dirs),
            module_name: String::from_str(module),
            function_name: sig.name.clone(),
            payload_type: payload,
            return_type: copy_opt(&sig.return_type),
            takes_credential: sig.param_count >= 1,
            source_location: String::from_str(source),
        };
        r.push(d);
        i = i + 1;
    }
    r
}

} // verus!
