//! Plain request, query and response records of the HTTP interface, and the
//! small pure steps the handlers take on them.
use vstd::prelude::*;
use vstd::string::StringExecFns;
use vstd::string::StrSliceExecFns;

verus! {

/// Identity-provider endpoints and keys, and the cookie-session key.
pub struct AppConfig {
    pub supabase_url: String,
    pub supabase_anon_key: String,
    pub supabase_service_role_key: String,
    pub session_key: String,
}

/// Query of a real-time connection request.
pub struct WsChatQuery {
    pub server_id: i64,
    pub channel_id: i64,
}

pub struct UpdateProfileRequest {
    pub avatar: Option<String>,
}

pub struct UpdateUsernameRequest {
    pub username: String,
}

pub struct LoginForm {
    pub email: String,
    pub password: String,
}

pub struct ForgotForm {
    pub email: String,
}

pub struct ResetPasswordForm {
    pub token: String,
    pub password: String,
}

pub struct RegisterForm {
    pub username: String,
    pub email: String,
    pub password: String,
}

pub struct CreateServerForm {
    pub name: String,
    pub image: Option<String>,
}

pub struct CreateChannelForm {
    pub server_id: i64,
    pub name: String,
    pub position: i64,
}

pub struct UpdateChannelForm {
    pub server_id: i64,
    pub channel_id: i64,
    pub name: String,
    pub position: i64,
}

pub struct DeleteChannelForm {
    pub server_id: i64,
    pub channel_id: i64,
}

pub struct ServerChannelsQuery {
    pub server_id: i64,
}

pub struct ChannelMessagesQuery {
    pub channel_id: i64,
}

pub struct JoinServerForm {
    pub server_id: i64,
}

pub struct CreateInviteLinkForm {
    pub server_id: i64,
}

pub struct JoinByLinkForm {
    pub link: String,
}

pub struct ServerMembersQuery {
    pub server_id: i64,
}

pub struct DeleteServerForm {
    pub server_id: i64,
}

pub struct UpdateServerForm {
    pub server_id: i64,
    pub name: Option<String>,
    pub image: Option<String>,
}

pub struct LeaveServerForm {
    pub server_id: i64,
}

/// `role` is `admin` or `membre`.
pub struct UpdateMemberRoleForm {
    pub server_id: i64,
    pub user_id: i64,
    pub role: String,
}

pub struct KickMemberForm {
    pub server_id: i64,
    pub user_id: i64,
}

pub struct SwitchOwnerForm {
    pub server_id: i64,
    pub new_owner_id: i64,
}

pub struct DeleteMessageForm {
    pub message_id: i64,
}

/// Identity-provider answer to a login.
pub struct SupabaseAuthResponse {
    pub user: SupabaseUser,
    pub session: Option<SupabaseSession>,
}

/// Identity-provider answer to a sign-up.
pub struct SupabaseSignupUser {
    pub id: String,
    pub email: Option<String>,
}

pub struct SupabaseSession {
    pub access_token: String,
}

pub struct SupabaseUser {
    pub id: String,
    pub email: Option<String>,
}

/// The current user as served to clients.
pub struct UserResponse {
    pub user_id: Option<String>,
    pub auth_id: Option<String>,
    pub email: Option<String>,
    pub username: Option<String>,
    pub avatar: Option<String>,
}

/// A user record of the identity provider's user table.
pub struct User {
    pub id: String,
    pub auth_id: String,
    pub username: String,
    pub email: String,
    pub avatar: Option<String>,
}

/// Whether `c` is an ASCII digit.
pub open spec fn is_digit(c: char) -> bool {
    '0' <= c && c <= '9'
}

/// The value of a string of decimal digits.
pub open spec fn digits_value(s: Seq<char>) -> int
    decreases s.len(),
{
    if s.len() == 0 {
        0
    } else {
        digits_value(s.drop_last()) * 10 + (s.last() as int - '0' as int)
    }
}

/// The digits of a signed decimal text: what follows an optional sign.
pub open spec fn unsigned_part(s: Seq<char>) -> Seq<char> {
    if s.len() > 0 && (s[0] == '-' || s[0] == '+') {
        s.drop_first()
    } else {
        s
    }
}

/// The integer a decimal text denotes: an optional `+` or `-`, then one or
/// more ASCII digits, with a value that fits in an `i64`.
pub open spec fn decimal_i64(s: Seq<char>) -> Option<i64> {
    let body = unsigned_part(s);
    let negative = s.len() > 0 && s[0] == '-';
    let v = if negative {
        -digits_value(body)
    } else {
        digits_value(body)
    };
    if body.len() > 0 && (forall|i: int| 0 <= i < body.len() ==> is_digit(#[trigger] body[i]))
        && i64::MIN <= v <= i64::MAX {
        Some(v as i64)
    } else {
        None
    }
}

proof fn lemma_digits_nonneg(s: Seq<char>)
    requires
        forall|i: int| 0 <= i < s.len() ==> is_digit(#[trigger] s[i]),
    ensures
        digits_value(s) >= 0,
    decreases s.len(),
{
    if s.len() > 0 {
        lemma_digits_nonneg(s.drop_last());
    }
}

/// The integer a decimal text denotes, as `str::parse::<i64>` reads it.
pub fn parse_i64(s: &str) -> (r: Option<i64>)
    ensures
        r == decimal_i64(s@),
{
    let n = s.unicode_len();
    let mut start: usize = 0;
    let mut negative = false;
    if n > 0 {
        let c0 = s.get_char(0);
        if c0 == '-' {
            negative = true;
            start = 1;
        } else if c0 == '+' {
            start = 1;
        }
    }
    let ghost body = unsigned_part(s@);
    proof {
        assert(body =~= s@.subrange(start as int, n as int));
    }
    if start >= n {
        return None;
    }
    let limit: u64 = if negative {
        0x8000_0000_0000_0000
    } else {
        0x7fff_ffff_ffff_ffff
    };
    let mut acc: u64 = 0;
    let mut over = false;
    let mut i: usize = start;
    while i < n
        invariant
            start <= i <= n,
            n == s@.len(),
            body == s@.subrange(start as int, n as int),
            body == unsigned_part(s@),
            negative == (s@.len() > 0 && s@[0] == '-'),
            limit == (if negative {
                0x8000_0000_0000_0000u64
            } else {
                0x7fff_ffff_ffff_ffffu64
            }),
            forall|j: int| start <= j < i ==> is_digit(#[trigger] s@[j]),
            !over ==> acc as int == digits_value(s@.subrange(start as int, i as int)),
            !over ==> acc <= limit,
            over ==> digits_value(s@.subrange(start as int, i as int)) > limit,
            limit <= 0x8000_0000_0000_0000,
            limit >= 0x7fff_ffff_ffff_ffff,
        decreases n - i,
    {
        let c = s.get_char(i);
        if c < '0' || c > '9' {
            proof {
                assert(body[i - start] == c);
                let w: int = i - start;
                assert(0 <= w < body.len());
                assert(!is_digit(body[w]));
                assert(!(forall|j: int| 0 <= j < body.len() ==> is_digit(#[trigger] body[j])));
            }
            return None;
        }
        let d = (c as u32 - '0' as u32) as u64;
        assert(d <= 9);
        let ghost pre = s@.subrange(start as int, i as int);
        proof {
            assert(s@.subrange(start as int, i as int + 1).drop_last() =~= pre);
            assert forall|j: int| 0 <= j < pre.len() implies is_digit(#[trigger] pre[j]) by {
                assert(pre[j] == s@[start + j]);
            }
            lemma_digits_nonneg(pre);
        }
        if !over {
            if acc > (limit - d) / 10 {
                over = true;
                proof {
                    assert(acc * 10 + d > limit) by (nonlinear_arith)
                        requires
                            acc > (limit - d) / 10,
                            d <= 9,
                            limit >= d,
                    ;
                }
            } else {
                proof {
                    assert(acc * 10 + d <= limit) by (nonlinear_arith)
                        requires
                            acc <= (limit - d) / 10,
                            d <= 9,
                            limit >= d,
                    ;
                }
                acc = acc * 10 + d;
            }
        } else {
            proof {
                assert(digits_value(pre) * 10 + d > limit) by (nonlinear_arith)
                    requires
                        digits_value(pre) > limit,
                        limit >= 0,
                        d >= 0,
                ;
            }
        }
        i = i + 1;
    }
    proof {
        assert(s@.subrange(start as int, n as int) =~= body);
        assert forall|j: int| 0 <= j < body.len() implies is_digit(#[trigger] body[j]) by {
            assert(body[j] == s@[start + j]);
        }
    }
    if over {
        return None;
    }
    if negative {
        if acc == 0x8000_0000_0000_0000 {
            Some(i64::MIN)
        } else {
            Some(-(acc as i64))
        }
    } else {
        Some(acc as i64)
    }
}

/// Why the current user could not be resolved.
pub enum SessionError {
    /// No user is logged in.
    NotLoggedIn,
    /// The stored user id is not a decimal integer.
    InvalidId,
}

/// The numeric id of the logged-in user.
pub fn get_user_id_from_session(user_response: &UserResponse) -> (r: Result<i64, SessionError>)
    ensures
        match user_response.user_id {
            None => r == Err::<i64, SessionError>(SessionError::NotLoggedIn),
            Some(id) => match decimal_i64(id@) {
                Some(v) => r == Ok::<i64, SessionError>(v),
                None => r == Err::<i64, SessionError>(SessionError::InvalidId),
            },
        },
{
    match &user_response.user_id {
        None => Err(SessionError::NotLoggedIn),
        Some(id) => match parse_i64(id.as_str()) {
            Some(v) => Ok(v),
            None => Err(SessionError::InvalidId),
        },
    }
}

/// `s` without its trailing `/` characters.
pub open spec fn without_trailing_slashes(s: Seq<char>) -> Seq<char>
    decreases s.len(),
{
    if s.len() > 0 && s.last() == '/' {
        without_trailing_slashes(s.drop_last())
    } else {
        s
    }
}

/// The identity provider's URL for `path`: the base URL without trailing
/// slashes, followed by `path`.
pub fn supabase_endpoint(base: &str, path: &str) -> (r: String)
    ensures
        r@ == without_trailing_slashes(base@) + path@,
{
    let mut end = base.unicode_len();
    proof {
        assert(base@.subrange(0, end as int) =~= base@);
    }
    while end > 0 && base.get_char(end - 1) == '/'
        invariant
            end <= base@.len(),
            without_trailing_slashes(base@) == without_trailing_slashes(
                base@.subrange(0, end as int),
            ),
        decreases end,
    {
        proof {
            assert(base@.subrange(0, end as int).drop_last() =~= base@.subrange(0, end as int - 1));
        }
        end = end - 1;
    }
    let mut out = String::new();
    let mut i: usize = 0;
    while i < end
        invariant
            i <= end,
            end <= base@.len(),
            out@ == base@.subrange(0, i as int),
        decreases end - i,
    {
        proof {
            assert(base@.subrange(0, i as int + 1) =~= base@.subrange(0, i as int).push(
                base@[i as int],
            ));
        }
        crate::platform::push_char(&mut out, base.get_char(i));
        i = i + 1;
    }
    out.append(path);
    out
}

} // verus!
