use vstd::prelude::*;
use crate::endpoint::{FnShape, FnSignature, opt_view, shape_of};

verus! {

#[verifier::external_type_specification]
#[verifier::external_body]
pub struct ExSynFile(syn::File);

#[verifier::external_type_specification]
#[verifier::external_body]
pub struct ExSynError(syn::Error);

/// Whether a text parses as a Rust source file.
pub uninterp spec fn parses(content: Seq<char>) -> bool;

/// A function item as plain values: its name, the type text of each
/// parameter (`None` for a `self` receiver), and its return type text.
pub type ItemShape = (Seq<char>, Seq<Option<Seq<char>>>, Option<Seq<char>>);

/// The top-level items of a source file that parses, in source order: the
/// shape of each function definition, `None` for any other item.
pub uninterp spec fn items_of(content: Seq<char>) -> Seq<Option<ItemShape>>;

/// The shape of top-level item `i` of `content`, where it is a function.
pub open spec fn shape_at(content: Seq<char>, i: int) -> ItemShape {
    items_of(content)[i].unwrap()
}

/// What the generator reads of a function item: the second parameter is the
/// payload, where there is one.
pub open spec fn fn_shape_of(item: ItemShape) -> FnShape {
    (item.0, item.1.len(), if item.1.len() >= 2 {
        item.1[1]
    } else {
        None
    }, item.2, if item.1.len() >= 1 {
        item.1[0]
    } else {
        None
    })
}

/// The shapes of the top-level functions among `items`, in order.
pub open spec fn fn_shapes(items: Seq<Option<ItemShape>>) -> Seq<FnShape>
    decreases items.len(),
{
    if items.len() == 0 {
        Seq::empty()
    } else {
        match items.last() {
            Some(f) => fn_shapes(items.drop_last()).push(fn_shape_of(f)),
            None => fn_shapes(items.drop_last()),
        }
    }
}

/// The shapes of the top-level functions of a source file.
pub open spec fn signatures_of(content: Seq<char>) -> Seq<FnShape> {
    fn_shapes(items_of(content))
}

/// Why a source file yields no signatures.
#[derive(Debug)]
pub struct ParseError {
    /// The parser's description of the fault.
    pub message: String,
}

/// A parsed source file, with the text it was parsed from.
pub struct ParsedFile {
    file: syn::File,
    content: Ghost<Seq<char>>,
}

impl ParsedFile {
    /// The text the file was parsed from.
    pub closed spec fn content(&self) -> Seq<char> {
        self.content@
    }
}

/// Relies on `syn::parse_file`: parses a whole source file, succeeding or
/// failing on its text alone.
#[verifier::external_body]
fn parse_source(content: &str) -> (r: Result<ParsedFile, syn::Error>)
    ensures
        r is Ok <==> parses(content@),
        r matches Ok(p) ==> p.content() == content@,
{
    syn::parse_file(content).map(|file| ParsedFile { file, content: Ghost(content@) })
}

/// Relies on `syn::Error`'s `Display`: the description of a parse fault.
#[verifier::external_body]
fn error_text(e: &syn::Error) -> String {
    e.to_string()
}

/// Relies on the `items` field of `syn::File`: the number of top-level items.
#[verifier::external_body]
fn item_count(p: &ParsedFile) -> (r: usize)
    ensures
        r == items_of(p.content()).len(),
{
    p.file.items.len()
}

/// Relies on `syn::Item::Fn`: whether top-level item `i` is a function.
#[verifier::external_body]
fn is_fn_at(p: &ParsedFile, i: usize) -> (r: bool)
    requires
        i < items_of(p.content()).len(),
    ensures
        r == items_of(p.content())[i as int] is Some,
{
    matches!(p.file.items[i], syn::Item::Fn(_))
}

/// Relies on the `ident` of `syn::Signature`: the name of function item `i`.
#[verifier::external_body]
fn fn_name_at(p: &ParsedFile, i: usize) -> (r: String)
    requires
        i < items_of(p.content()).len(),
        items_of(p.content())[i as int] is Some,
    ensures
        r@ == shape_at(p.content(), i as int).0,
{
    match &p.file.items[i] {
        syn::Item::Fn(x) => x.sig.ident.to_string(),
        _ => String::new(),
    }
}

/// Relies on the `inputs` of `syn::Signature`: how many parameters function
/// item `i` declares.
#[verifier::external_body]
fn fn_param_count_at(p: &ParsedFile, i: usize) -> (r: usize)
    requires
        i < items_of(p.content()).len(),
        items_of(p.content())[i as int] is Some,
    ensures
        r as nat == shape_at(p.content(), i as int).1.len(),
{
    match &p.file.items[i] {
        syn::Item::Fn(x) => x.sig.inputs.len(),
        _ => 0,
    }
}

/// Relies on `syn::FnArg::Typed` and `quote::ToTokens`: the type text of
/// parameter `j` of function item `i`, where it is a typed one.
#[verifier::external_body]
fn fn_param_type_at(p: &ParsedFile, i: usize, j: usize) -> (r: Option<String>)
    requires
        i < items_of(p.content()).len(),
        items_of(p.content())[i as int] is Some,
        j < shape_at(p.content(), i as int).1.len(),
    ensures
        opt_view(r) == shape_at(p.content(), i as int).1[j as int],
{
    match &p.file.items[i] {
        syn::Item::Fn(x) => match &x.sig.inputs[j] {
            syn::FnArg::Typed(a) => Some(quote::ToTokens::to_token_stream(&*a.ty).to_string()),
            syn::FnArg::Receiver(_) => None,
        },
        _ => None,
    }
}

/// Relies on `syn::ReturnType` and `quote::ToTokens`: the text of the return
/// type of function item `i`, where one is declared.
#[verifier::external_body]
fn fn_return_type_at(p: &ParsedFile, i: usize) -> (r: Option<String>)
    requires
        i < items_of(p.content()).len(),
        items_of(p.content())[i as int] is Some,
    ensures
        opt_view(r) == shape_at(p.content(), i as int).2,
{
    match &p.file.items[i] {
        syn::Item::Fn(x) => match &x.sig.output {
            syn::ReturnType::Type(_, t) => Some(quote::ToTokens::to_token_stream(&**t).to_string()),
            syn::ReturnType::Default => None,
        },
        _ => None,
    }
}

/// Reads the shape of each top-level function of a source file, in source
/// order; functions nested in other items are not read. Fails exactly where
/// the file does not parse.
pub fn read_signatures(content: &str) -> (r: Result<Vec<FnSignature>, ParseError>)
    ensures
        r is Ok <==> parses(content@),
        r matches Ok(v) ==> v@.map_values(|s: FnSignature| shape_of(s)) == signatures_of(content@),
{
    let p = match parse_source(content) {
        Ok(p) => p,
        Err(e) => {
            return Err(ParseError { message: error_text(&e) });
        },
    };
    let ghost items = items_of(content@);
    let n = item_count(&p);
    let mut sigs: Vec<FnSignature> = Vec::new();
    let mut i: usize = 0;
    while i < n
        invariant
            p.content() == content@,
            items == items_of(content@),
            n == items.len(),
            i <= n,
            sigs@.map_values(|s: FnSignature| shape_of(s)) == fn_shapes(items.subrange(0, i as int)),
        decreases n - i,
    {
        let ghost before = sigs@;
        assert(items.subrange(0, i + 1).drop_last() =~= items.subrange(0, i as int));
        if is_fn_at(&p, i) {
            let param_count = fn_param_count_at(&p, i);
            let payload_type = if param_count >= 2 {
                fn_param_type_at(&p, i, 1)
            } else {
                None
            };
            let credential_type = if param_count >= 1 {
                fn_param_type_at(&p, i, 0)
            } else {
                None
            };
            let sig = FnSignature {
                name: fn_name_at(&p, i),
                param_count,
                payload_type,
                return_type: fn_return_type_at(&p, i),
                credential_type,
            };
            sigs.push(sig);
            assert(sigs@.map_values(|s: FnSignature| shape_of(s)) =~= before.map_values(
                |s: FnSignature| shape_of(s),
            ).push(shape_of(sig)));
        }
        i = i + 1;
    }
    assert(items.subrange(0, n as int) =~= items);
    Ok(sigs)
}

} // verus!
