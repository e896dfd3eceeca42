//! Resolving a paper identifier to a remote object and gating its download:
//! the glob built from the identifier's two parts, the choice of the most
//! recent listed object, and the checks made before any transfer.

use vstd::prelude::*;
use vstd::string::*;

pub mod model;

use crate::err::AppError;
use crate::err::AppResult;
use crate::fetch::model::GcsListObjectResponse;
use crate::fetch::model::GcsObject;
use crate::text::chars_of;
use crate::text::skip_while;
use crate::text::str_eq;
use crate::text::string_from_chars;
use crate::text::subrange_chars;

verus! {

/// Counts the dots of an identifier.
pub open spec fn count_dots(s: Seq<char>) -> nat
    decreases s.len(),
{
    if s.len() == 0 {
        0
    } else {
        (if s[0] == '.' {
            1nat
        } else {
            0nat
        }) + count_dots(s.skip(1))
    }
}

/// A paper identifier is well formed when it splits into exactly two
/// dot-separated parts: it holds exactly one dot.
pub open spec fn id_well_formed_spec(id: Seq<char>) -> bool {
    count_dots(id) == 1
}

pub fn id_well_formed(id: &str) -> (r: bool)
    ensures
        r == id_well_formed_spec(id@),
{
    let v = chars_of(id);
    let n = v.len();
    let mut dots: usize = 0;
    let mut i: usize = 0;
    proof {
        assert(v@.skip(0) =~= v@);
    }
    while i < n
        invariant
            0 <= i <= n,
            n == v@.len(),
            dots <= i,
            count_dots(v@) == dots + count_dots(v@.skip(i as int)),
        decreases n - i,
    {
        proof {
            assert(v@.skip(i as int).skip(1) =~= v@.skip(i + 1 as int));
        }
        if v[i] == '.' {
            dots += 1;
        }
        i += 1;
    }
    proof {
        assert(v@.skip(n as int) =~= Seq::<char>::empty());
    }
    dots == 1
}

pub open spec fn nondot_pred() -> spec_fn(char) -> bool {
    |c: char| c != '.'
}

/// The identifier's first part: everything before its first dot.
pub open spec fn id_year(id: Seq<char>) -> Seq<char> {
    id.take(skip_while(id, 0, nondot_pred()))
}

/// The glob matching every stored rendition of the paper: the year
/// directory, then the identifier as a prefix.
pub open spec fn glob_spec(id: Seq<char>) -> Seq<char> {
    "arxiv/arxiv/pdf/"@ + id_year(id) + "/"@ + id + "**"@
}

/// Builds the listing glob from the identifier's two parts. A malformed
/// identifier without exactly one dot violates the precondition: the fault
/// is caught here, before any listing or download is attempted.
pub fn glob_factory(arxiv_id: &str) -> (r: String)
    requires
        id_well_formed_spec(arxiv_id@),
    ensures
        r@ == glob_spec(arxiv_id@),
{
    let v = chars_of(arxiv_id);
    let n = v.len();
    let mut d: usize = 0;
    while d < n && v[d] != '.'
        invariant
            0 <= d <= n,
            n == v@.len(),
            v@ == arxiv_id@,
            skip_while(v@, 0, nondot_pred()) == skip_while(v@, d as int, nondot_pred()),
        decreases n - d,
    {
        proof {
            assert(nondot_pred()(v@[d as int]));
            assert(skip_while(v@, d as int, nondot_pred()) == skip_while(
                v@,
                d + 1 as int,
                nondot_pred(),
            ));
        }
        d += 1;
    }
    proof {
        if d < n {
            assert(!nondot_pred()(v@[d as int]));
        }
        assert(skip_while(v@, d as int, nondot_pred()) == d);
    }
    let year = subrange_chars(&v, 0, d);
    proof {
        assert(year@ =~= id_year(arxiv_id@));
    }
    let year_s = string_from_chars(&year);
    let mut out = String::from_str("arxiv/arxiv/pdf/");
    out.append(year_s.as_str());
    out.append("/");
    out.append(arxiv_id);
    out.append("**");
    out
}

/// Picks the remote object for a paper out of its listing: the most recent
/// one, by listing order; an empty listing means the paper has no stored
/// object.
pub fn resolve_object(arxiv_id: &str, listing: GcsListObjectResponse) -> (r: AppResult<GcsObject>)
    ensures
        match r {
            Ok(o) => listing.items@.len() > 0 && o == listing.items@.last(),
            Err(e) => {
                &&& listing.items@.len() == 0
                &&& e matches AppError::NoBucketObject(m) && m@ == arxiv_id@
            },
        },
{
    let picked = listing.take_most_recent();
    match picked {
        Some(o) => Ok(o),
        None => Err(AppError::NoBucketObject(String::from_str(arxiv_id))),
    }
}

/// The check made before any transfer: the object must declare the PDF
/// media type, else the download is refused without being attempted.
pub fn check_object_downloadable(object: &GcsObject) -> (r: AppResult<()>)
    ensures
        match r {
            Ok(_) => object.content_type@ == "application/pdf"@,
            Err(e) => {
                &&& object.content_type@ != "application/pdf"@
                &&& e matches AppError::Other(m) && m@ == "object '"@ + object.id@
                    + "' content type is not PDF"@
            },
        },
{
    if str_eq(object.content_type.as_str(), "application/pdf") {
        Ok(())
    } else {
        let mut m = String::from_str("object '");
        m.append(object.id.as_str());
        m.append("' content type is not PDF");
        Err(AppError::Other(m))
    }
}

/// A transport status in the success range.
pub fn is_success_status(code: u16) -> (r: bool)
    ensures
        r == (200 <= code < 300),
{
    200 <= code && code < 300
}

/// The check made on a transport response before its payload is read: a
/// status outside the success range fails with that status.
pub fn check_response_code(code: u16) -> (r: AppResult<()>)
    ensures
        match r {
            Ok(_) => 200 <= code < 300,
            Err(e) => !(200 <= code < 300) && e == AppError::HttpStatusError(code),
        },
{
    if is_success_status(code) {
        Ok(())
    } else {
        Err(AppError::HttpStatusError(code))
    }
}

} // verus!
