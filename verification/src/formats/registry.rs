//! The formats compiled into this build, and picking one for an input.

use vstd::prelude::*;

use super::ah::sq::{nvdata_spec, SqAdapter};
use super::ah::{ah_parse_spec, ah_sniff_spec, AllenHeathAdapter};
use super::ah::sq::sq_parse_spec;
use super::x32::{show_result_view, x32_parse_spec, x32_sniff_spec, X32Adapter};
use super::yamaha::clf::{clf_parse_spec, product_spec, ClfAdapter};
use super::yamaha::{yamaha_parse_spec, yamaha_sniff_spec, YamahaAdapter};
use super::{confidence_rank, AdapterError, AdapterErrorView, Confidence, ShowAdapter, ShowFile, ShowInput};
use crate::model::show::ShowView;
use crate::model::Show;

verus! {

/// A show file format this build reads: one per adapter.
#[derive(Debug, Clone, Copy, PartialEq, Eq, Structural)]
pub enum Format {
    X32,
    Yamaha,
    AllenHeath,
    Sq,
    Clf,
}

/// Every format, in the order detection tries them.
pub open spec fn all_formats() -> Seq<Format> {
    seq![Format::X32, Format::Yamaha, Format::AllenHeath, Format::Sq, Format::Clf]
}

/// The stable slug of a format.
pub open spec fn format_id(f: Format) -> Seq<char> {
    match f {
        Format::X32 => "x32"@,
        Format::Yamaha => "yamaha-mms"@,
        Format::AllenHeath => "allen-heath"@,
        Format::Sq => "allen-heath-sq"@,
        Format::Clf => "yamaha-clf"@,
    }
}

/// The human name of a format.
pub open spec fn format_name(f: Format) -> Seq<char> {
    match f {
        Format::X32 => "Behringer X32 / Midas M32 scene"@,
        Format::Yamaha => "Yamaha DM3 / DM7 / TF scene"@,
        Format::AllenHeath => "Allen & Heath Avantis / dLive show"@,
        Format::Sq => "Allen & Heath SQ show (NVDATA.DAT)"@,
        Format::Clf => "Yamaha CL / QL console file"@,
    }
}

/// The file extensions a format claims, lower case and without the dot.
pub open spec fn format_extensions(f: Format) -> Seq<Seq<char>> {
    match f {
        Format::X32 => seq!["scn"@],
        Format::Yamaha => seq!["dm3s"@, "dm7s"@, "tfs"@, "dm3p"@, "dm7p"@, "tfp"@],
        Format::AllenHeath => seq!["tar.gz"@, "gz"@],
        Format::Sq => seq!["dat"@],
        Format::Clf => seq!["clf"@],
    }
}

/// How sure a format's adapter is that it reads these files.
pub open spec fn sniff_spec(f: Format, files: Seq<ShowFile>) -> Confidence {
    match f {
        Format::X32 => x32_sniff_spec(files),
        Format::Yamaha => yamaha_sniff_spec(files),
        Format::AllenHeath => ah_sniff_spec(files),
        Format::Sq => if nvdata_spec(files) is Some {
            Confidence::Strong
        } else {
            Confidence::No
        },
        Format::Clf => if files.len() > 0 && product_spec(files[0].bytes@) is Some {
            Confidence::Strong
        } else {
            Confidence::No
        },
    }
}

/// What a format's adapter reads these files as.
pub open spec fn parse_spec(f: Format, files: Seq<ShowFile>, name: Seq<char>) -> Result<ShowView, AdapterErrorView> {
    match f {
        Format::X32 => x32_parse_spec(files, name),
        Format::Yamaha => yamaha_parse_spec(files),
        Format::AllenHeath => ah_parse_spec(files, name),
        Format::Sq => sq_parse_spec(files, name),
        Format::Clf => clf_parse_spec(files, name),
    }
}

/// The first of the most confident formats among `fs`, never one that said
/// `No`.
pub open spec fn best_of(fs: Seq<Format>, files: Seq<ShowFile>) -> Option<Format>
    decreases fs.len(),
{
    if fs.len() == 0 {
        None
    } else {
        let b = best_of(fs.drop_last(), files);
        let x = fs.last();
        let c = sniff_spec(x, files);
        if c != Confidence::No && match b {
            None => true,
            Some(y) => confidence_rank(c) > confidence_rank(sniff_spec(y, files)),
        } {
            Some(x)
        } else {
            b
        }
    }
}

/// The format detection picks for these files.
pub open spec fn detected(files: Seq<ShowFile>) -> Option<Format> {
    best_of(all_formats(), files)
}

impl ShowAdapter for Format {
    fn id(&self) -> (r: &'static str)
        ensures
            r@ == format_id(*self),
    {
        match self {
            Format::X32 => X32Adapter.id(),
            Format::Yamaha => YamahaAdapter.id(),
            Format::AllenHeath => AllenHeathAdapter.id(),
            Format::Sq => SqAdapter.id(),
            Format::Clf => ClfAdapter.id(),
        }
    }

    fn display_name(&self) -> (r: &'static str)
        ensures
            r@ == format_name(*self),
    {
        match self {
            Format::X32 => X32Adapter.display_name(),
            Format::Yamaha => YamahaAdapter.display_name(),
            Format::AllenHeath => AllenHeathAdapter.display_name(),
            Format::Sq => SqAdapter.display_name(),
            Format::Clf => ClfAdapter.display_name(),
        }
    }

    fn extensions(&self) -> (r: &'static [&'static str])
        ensures
            r@.map_values(|e: &str| e@) == format_extensions(*self),
    {
        match self {
            Format::X32 => X32Adapter.extensions(),
            Format::Yamaha => YamahaAdapter.extensions(),
            Format::AllenHeath => AllenHeathAdapter.extensions(),
            Format::Sq => SqAdapter.extensions(),
            Format::Clf => ClfAdapter.extensions(),
        }
    }

    fn sniff(&self, input: &ShowInput) -> (r: Confidence)
        ensures
            r == sniff_spec(*self, input.files@),
    {
        match self {
            Format::X32 => X32Adapter.sniff(input),
            Format::Yamaha => YamahaAdapter.sniff(input),
            Format::AllenHeath => AllenHeathAdapter.sniff(input),
            Format::Sq => SqAdapter.sniff(input),
            Format::Clf => ClfAdapter.sniff(input),
        }
    }

    fn parse(&self, input: &ShowInput) -> (r: Result<Show, AdapterError>)
        ensures
            show_result_view(r) == parse_spec(*self, input.files@, input.name@),
    {
        match self {
            Format::X32 => X32Adapter.parse(input),
            Format::Yamaha => YamahaAdapter.parse(input),
            Format::AllenHeath => AllenHeathAdapter.parse(input),
            Format::Sq => SqAdapter.parse(input),
            Format::Clf => ClfAdapter.parse(input),
        }
    }
}

/// Every format compiled into this build, in the order detection tries them.
pub fn adapters() -> (r: Vec<Format>)
    ensures
        r@ == all_formats(),
{
    let r = vec![Format::X32, Format::Yamaha, Format::AllenHeath, Format::Sq, Format::Clf];
    proof {
        assert(r@ =~= all_formats());
    }
    r
}

/// Pick the format most confident about this input: the first of the most
/// confident, never one that said `No`, with how confident it is.
pub fn detect(input: &ShowInput) -> (r: Option<(Format, Confidence)>)
    ensures
        r == match detected(input.files@) {
            Some(f) => Some((f, sniff_spec(f, input.files@))),
            None => None,
        },
{
    let all = adapters();
    let ghost files = input.files@;
    let mut best: Option<(Format, Confidence)> = None;
    let mut i: usize = 0;
    while i < all.len()
        invariant
            i <= all@.len(),
            all@ == all_formats(),
            files == input.files@,
            best == match best_of(all@.take(i as int), files) {
                Some(f) => Some((f, sniff_spec(f, files))),
                None => None,
            },
        decreases all@.len() - i,
    {
        proof {
            assert(all@.take(i + 1).drop_last() =~= all@.take(i as int));
            assert(all@.take(i + 1).last() == all@[i as int]);
        }
        let f = all[i];
        let c = f.sniff(input);
        if c != Confidence::No {
            match best {
                None => {
                    best = Some((f, c));
                },
                Some((_, bc)) => {
                    if c.rank() > bc.rank() {
                        best = Some((f, c));
                    }
                },
            }
        }
        i = i + 1;
    }
    proof {
        assert(all@.take(i as int) =~= all@);
    }
    best
}

/// Detect the format and parse in one step: unrecognised when no format
/// claims the input, otherwise what the detected format reads it as.
pub fn parse_auto(input: &ShowInput) -> (r: Result<Show, AdapterError>)
    ensures
        match detected(input.files@) {
            None => show_result_view(r) == Err::<ShowView, AdapterErrorView>(AdapterErrorView::Unrecognised),
            Some(f) => show_result_view(r) == parse_spec(f, input.files@, input.name@),
        },
{
    match detect(input) {
        None => Err(AdapterError::Unrecognised),
        Some((f, _)) => f.parse(input),
    }
}

/// No two formats share an id, so the id names the format in the exchange
/// file and on the command line.
pub proof fn law_format_ids_are_distinct(f: Format, g: Format)
    requires
        f != g,
    ensures
        format_id(f) != format_id(g),
{
    reveal_strlit("x32");
    reveal_strlit("yamaha-mms");
    reveal_strlit("allen-heath");
    reveal_strlit("allen-heath-sq");
    reveal_strlit("yamaha-clf");
    assert("x32"@[0] != "yamaha-mms"@[0]);
    assert("allen-heath"@.len() != "allen-heath-sq"@.len());
    assert("yamaha-mms"@[7] != "yamaha-clf"@[7]);
}

/// An empty bundle is claimed by no format, so detection finds nothing and
/// parsing says the input was not recognised.
pub proof fn law_nothing_claims_an_empty_bundle(f: Format)
    ensures
        sniff_spec(f, Seq::empty()) == Confidence::No,
        detected(Seq::empty()) is None,
{
    reveal_with_fuel(best_of, 6);
}

} // verus!
