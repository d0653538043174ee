//! Decisions read off the remote store's status codes, and the WebDAV URL
//! construction. The transport itself performs the requests and hands the
//! status codes back.

use vstd::prelude::*;

verus! {

/// Client and server error statuses, as the transport reports an error.
pub open spec fn is_error_status(s: int) -> bool {
    400 <= s <= 599
}

/// Whether a probe of the server's front page says it is reachable: an
/// unavailable or internally failing server is not.
pub fn server_available(status: u16) -> (r: bool)
    ensures
        r == !(status == 503 || status == 500),
{
    !(status == 503 || status == 500)
}

/// What an authentication probe's status says.
#[derive(Clone, Copy, Debug, PartialEq, Eq, Structural)]
pub enum AuthOutcome {
    /// The credentials were accepted.
    Authorized,
    /// The credentials were not accepted.
    Unauthorized,
    /// The server failed; nothing is known about the credentials.
    Error,
}

pub fn evaluate_auth_status(status: u16) -> (r: AuthOutcome)
    ensures
        200 <= status <= 299 ==> r == AuthOutcome::Authorized,
        status == 401 ==> r == AuthOutcome::Unauthorized,
        !(200 <= status <= 299) && status != 401 && is_error_status(status as int) ==> r
            == AuthOutcome::Error,
        !(200 <= status <= 299) && status != 401 && !is_error_status(status as int) ==> r
            == AuthOutcome::Unauthorized,
{
    if 200 <= status && status <= 299 {
        AuthOutcome::Authorized
    } else if status == 401 {
        AuthOutcome::Unauthorized
    } else if 400 <= status && status <= 599 {
        AuthOutcome::Error
    } else {
        AuthOutcome::Unauthorized
    }
}

/// What a folder existence probe's status says.
#[derive(Clone, Copy, Debug, PartialEq, Eq, Structural)]
pub enum ExistsOutcome {
    /// The folder is there.
    Exists,
    /// The folder is not there.
    Missing,
    /// The probe failed; nothing is known about the folder.
    Error,
}

pub fn evaluate_exists_status(status: u16) -> (r: ExistsOutcome)
    ensures
        status == 404 ==> r == ExistsOutcome::Missing,
        status == 207 ==> r == ExistsOutcome::Exists,
        status != 404 && status != 207 ==> r == ExistsOutcome::Error,
{
    if status == 404 {
        ExistsOutcome::Missing
    } else if status == 207 {
        ExistsOutcome::Exists
    } else {
        ExistsOutcome::Error
    }
}

/// Whether a response status reports an error, and which: the check applied
/// to every create and upload response.
pub fn status_to_result(status: u16) -> (r: Result<(), u16>)
    ensures
        r is Err <==> is_error_status(status as int),
        r matches Err(s) ==> s == status,
{
    if 400 <= status && status <= 599 {
        Err(status)
    } else {
        Ok(())
    }
}

/// `base` with each extension appended after exactly one '/': an extension
/// that already starts with '/' brings its own.
pub open spec fn spec_joined_url(base: Seq<char>, exts: Seq<Seq<char>>) -> Seq<char>
    decreases exts.len(),
{
    if exts.len() == 0 {
        base
    } else {
        let ext = exts[0];
        let step = if ext.len() > 0 && ext[0] == '/' {
            base + ext
        } else {
            base + seq!['/'] + ext
        };
        spec_joined_url(step, exts.drop_first())
    }
}

/// Builds the request URL from the DAV base URL and the path parts.
pub fn build_url(base: &str, extensions: &Vec<String>) -> (r: String)
    ensures
        r@ == spec_joined_url(base@, extensions.deep_view()),
{
    let n = extensions.len();
    let mut current = String::from_str(base);
    let mut k: usize = 0;
    proof {
        assert(extensions.deep_view().skip(0) =~= extensions.deep_view());
    }
    while k < n
        invariant
            0 <= k <= n,
            n == extensions@.len(),
            spec_joined_url(current@, extensions.deep_view().skip(k as int)) == spec_joined_url(
                base@,
                extensions.deep_view(),
            ),
        decreases n - k,
    {
        let ghost before = current@;
        let ext = &extensions[k];
        let starts_with_slash = ext.as_str().unicode_len() > 0 && ext.as_str().get_char(0) == '/';
        if !starts_with_slash {
            current.append("/");
        }
        current.append(ext.as_str());
        proof {
            reveal_strlit("/");
            let exts = extensions.deep_view();
            assert(exts.skip(k as int)[0] == exts[k as int]);
            assert(exts[k as int] == ext@);
            if starts_with_slash {
                assert(current@ =~= before + ext@);
            } else {
                assert(current@ =~= before + seq!['/'] + ext@);
            }
            assert(exts.skip(k as int).drop_first() =~= exts.skip(k as int + 1));
        }
        k = k + 1;
    }
    proof {
        assert(extensions.deep_view().skip(n as int) =~= Seq::<Seq<char>>::empty());
    }
    current
}

} // verus!
