//! Logging in by email: passports, their confirmation, and the emails that
//! carry the confirmation link.
use vstd::prelude::*;
use vstd::string::*;
use crate::error::AppError;
use crate::model::{Account, AccountRole};
use crate::operation::ObjectId;
use crate::text::{contains, occurs_in, same_text};

verus! {

/// An email address with an optional display name.
pub struct EmailAddress {
    pub address: String,
    pub display_name: Option<String>,
}

/// What an email says and to whom.
pub struct EmailData {
    pub to: Vec<EmailAddress>,
    pub from: EmailAddress,
    pub subject: String,
    pub html: String,
}

/// An email to send.
pub struct Email {
    pub data: EmailData,
}

/// The sender of the service's emails.
pub open spec fn sender() -> Seq<char> {
    "auth@boulderhalle.app"@
}

impl Email {
    /// An email to `to` with `subject` and the HTML `body`, from the service.
    pub fn new(to: String, subject: String, body: String) -> (e: Email)
        ensures
            e.data.to@.len() == 1,
            e.data.to@[0].address == to,
            e.data.to@[0].display_name is None,
            e.data.from.address@ == sender(),
            e.data.from.display_name is None,
            e.data.subject == subject,
            e.data.html == body,
    {
        let mut recipients: Vec<EmailAddress> = Vec::new();
        recipients.push(EmailAddress { address: to, display_name: None });
        Email {
            data: EmailData {
                to: recipients,
                from: EmailAddress {
                    address: String::from_str("auth@boulderhalle.app"),
                    display_name: None,
                },
                subject,
                html: body,
            },
        }
    }
}

/// The link that confirms a passport.
pub open spec fn confirmation_url(
    api_host: Seq<char>,
    api_domain: Seq<char>,
    passport_id: Seq<char>,
    confirmation_token: Seq<char>,
) -> Seq<char> {
    api_host + "/"@ + api_domain + "/login/confirm?passportId="@ + passport_id
        + "&confirmationToken="@ + confirmation_token
}

/// The subject of the verification email.
pub open spec fn verification_subject(api_domain: Seq<char>, security_code: Seq<char>) -> Seq<char> {
    api_domain + " Login Verification (code: \""@ + security_code + "\")"@
}

/// The body of the verification email: its lines, joined by newlines.
pub open spec fn verification_body(api_domain: Seq<char>, security_code: Seq<char>, url: Seq<char>) -> Seq<
    char,
> {
    "Verify your email to log on to the "@ + api_domain + "\n"@ + "<br/>"@ + "\n"@
        + "We have received a login attempt with the following code:"@ + "\n"@ + "<br/>"@
        + "\n"@ + security_code + "\n"@ + "<br/>"@ + "\n"@
        + "complete the login process, please click the URL below:"@ + "\n"@ + "<br/>"@ + "\n"@
        + "<a href="@ + url + ">"@ + url + "</a>"@ + "\n"@ + "<br/>"@ + "\n"@
        + "copy and paste this URL into your browser."@
}

/// The email that asks `email` to confirm the login with `security_code`,
/// through the confirmation link of the passport.
pub fn verification_email(
    email: String,
    api_host: &str,
    api_domain: &str,
    passport_id: &str,
    security_code: &str,
    confirmation_token: &str,
) -> (e: Email)
    ensures
        e.data.to@.len() == 1,
        e.data.to@[0].address == email,
        e.data.to@[0].display_name is None,
        e.data.from.address@ == sender(),
        e.data.from.display_name is None,
        e.data.subject@ == verification_subject(api_domain@, security_code@),
        e.data.html@ == verification_body(
            api_domain@,
            security_code@,
            confirmation_url(api_host@, api_domain@, passport_id@, confirmation_token@),
        ),
{
    let mut url = String::from_str(api_host);
    url.append("/");
    url.append(api_domain);
    url.append("/login/confirm?passportId=");
    url.append(passport_id);
    url.append("&confirmationToken=");
    url.append(confirmation_token);
    let mut subject = String::from_str(api_domain);
    subject.append(" Login Verification (code: \"");
    subject.append(security_code);
    subject.append("\")");
    let mut body = String::from_str("Verify your email to log on to the ");
    body.append(api_domain);
    body.append("\n");
    body.append("<br/>");
    body.append("\n");
    body.append("We have received a login attempt with the following code:");
    body.append("\n");
    body.append("<br/>");
    body.append("\n");
    body.append(security_code);
    body.append("\n");
    body.append("<br/>");
    body.append("\n");
    body.append("complete the login process, please click the URL below:");
    body.append("\n");
    body.append("<br/>");
    body.append("\n");
    body.append("<a href=");
    body.append(url.as_str());
    body.append(">");
    body.append(url.as_str());
    body.append("</a>");
    body.append("\n");
    body.append("<br/>");
    body.append("\n");
    body.append("copy and paste this URL into your browser.");
    Email::new(email, subject, body)
}

/// What the mail service answered to a request to send an email.
pub fn email_outcome(success: bool, message: &str) -> (r: Result<(), AppError>)
    ensures
        r is Ok <==> success,
        r matches Err(e) ==> (e matches AppError::Passport(m) && m@ == "sending email failed: "@
            + message@),
{
    if success {
        Ok(())
    } else {
        Err(AppError::Passport(String::from_str("sending email failed: ").concat(message)))
    }
}

/// The state of a passport.
#[derive(Clone, Copy, Debug, PartialEq, Eq, Structural)]
pub enum PassportValidity {
    Unconfirmed,
    Valid,
    Expired,
}

/// A login attempt: the account it logs into, the code the user sees, and
/// the token of the confirmation link.
pub struct Passport {
    pub account_id: ObjectId,
    pub security_code: String,
    pub confirmation_token: String,
    pub validity: PassportValidity,
}

impl Passport {
    /// A new, unconfirmed passport.
    pub fn new(account_id: ObjectId, security_code: String, confirmation_token: String) -> (p:
        Passport)
        ensures
            p.account_id == account_id,
            p.security_code == security_code,
            p.confirmation_token == confirmation_token,
            p.validity == PassportValidity::Unconfirmed,
    {
        Passport { account_id, security_code, confirmation_token, validity: PassportValidity::Unconfirmed }
    }
}

/// The account that is created for an email address that logs in for the first time.
pub fn new_account(email: String) -> (a: Account)
    ensures
        a.id is None,
        a.email == email,
        a.role == AccountRole::User,
        a.login@ == "to be removed"@,
        a.name is None,
{
    Account {
        id: None,
        email,
        role: AccountRole::User,
        login: String::from_str("to be removed"),
        name: None,
    }
}

/// A confirmation link is accepted only with the passport's own token.
pub fn check_confirmation_token(given: &str, expected: &str) -> (r: Result<(), AppError>)
    ensures
        r is Ok <==> given@ == expected@,
        r matches Err(e) ==> e is NotAuthorized,
{
    if same_text(given, expected) {
        Ok(())
    } else {
        Err(AppError::NotAuthorized())
    }
}

/// Where a confirmed login is sent: the development site for a development
/// host, and otherwise the gym's own site (the gym `leutsch` has its own name).
pub open spec fn redirect_host_spec(api_host: Seq<char>, gym: Seq<char>) -> Seq<char> {
    if occurs_in(api_host, "dev"@) {
        "https://dev.boulderhalle.app"@
    } else if gym == "leutsch"@ {
        "https://minimum-"@ + gym + ".boulderhalle.app"@
    } else {
        "https://"@ + gym + ".boulderhalle.app"@
    }
}

/// The page a confirmed login is sent to.
pub fn confirmed_redirect(api_host: &str, gym: &str) -> (r: String)
    ensures
        r@ == redirect_host_spec(api_host@, gym@) + "/email-confirmed"@,
{
    let mut host = if contains(api_host, "dev") {
        String::from_str("https://dev.boulderhalle.app")
    } else if same_text(gym, "leutsch") {
        let mut h = String::from_str("https://minimum-");
        h.append(gym);
        h.append(".boulderhalle.app");
        h
    } else {
        let mut h = String::from_str("https://");
        h.append(gym);
        h.append(".boulderhalle.app");
        h
    };
    host.append("/email-confirmed");
    host
}

/// What waiting for a confirmation does next.
#[derive(Clone, Copy, Debug, PartialEq, Eq, Structural)]
pub enum AwaitStep {
    /// The passport is confirmed: log in.
    Confirmed,
    /// Not confirmed yet: look again later.
    Wait,
    /// The passport was used already.
    Refuse,
}

/// The next step of waiting for a passport with `validity` to be confirmed.
pub open spec fn await_step_spec(validity: PassportValidity) -> AwaitStep {
    match validity {
        PassportValidity::Valid => AwaitStep::Confirmed,
        PassportValidity::Unconfirmed => AwaitStep::Wait,
        PassportValidity::Expired => AwaitStep::Refuse,
    }
}

/// The validity of a passport after a wait for it: a confirmed login uses the
/// passport up.
pub open spec fn validity_after_wait(validity: PassportValidity) -> PassportValidity {
    match validity {
        PassportValidity::Valid => PassportValidity::Expired,
        _ => validity,
    }
}

/// The validity of a passport with `validity` after `n` waits for it.
pub open spec fn after_waits(validity: PassportValidity, n: nat) -> PassportValidity
    decreases n,
{
    if n == 0 {
        validity
    } else {
        validity_after_wait(after_waits(validity, (n - 1) as nat))
    }
}

/// The next step of waiting for a passport with `validity` to be confirmed.
pub fn await_step(validity: PassportValidity) -> (s: AwaitStep)
    ensures
        s == await_step_spec(validity),
{
    match validity {
        PassportValidity::Valid => AwaitStep::Confirmed,
        PassportValidity::Unconfirmed => AwaitStep::Wait,
        PassportValidity::Expired => AwaitStep::Refuse,
    }
}

/// The validity to store after a wait for a passport with `validity`, when it changes.
pub fn stored_after_wait(validity: PassportValidity) -> (r: Option<PassportValidity>)
    ensures
        r == if validity_after_wait(validity) == validity {
            None
        } else {
            Some(validity_after_wait(validity))
        },
{
    match validity {
        PassportValidity::Valid => Some(PassportValidity::Expired),
        _ => None,
    }
}

/// An expired passport stays expired however often it is waited for.
proof fn lemma_expired_stays(validity: PassportValidity, i: nat, j: nat)
    requires
        i <= j,
        after_waits(validity, i) == PassportValidity::Expired,
    ensures
        after_waits(validity, j) == PassportValidity::Expired,
    decreases j - i,
{
    if i < j {
        lemma_expired_stays(validity, i, (j - 1) as nat);
    }
}

/// A passport confirms a login once: after a wait that confirmed it, every
/// later wait for it is refused.
pub proof fn law_passport_confirms_once(validity: PassportValidity, i: nat, j: nat)
    requires
        i < j,
        await_step_spec(after_waits(validity, i)) == AwaitStep::Confirmed,
    ensures
        await_step_spec(after_waits(validity, j)) == AwaitStep::Refuse,
{
    assert(after_waits(validity, i + 1) == PassportValidity::Expired);
    lemma_expired_stays(validity, i + 1, j);
}

/// The characters of generated ids.
pub open spec fn id_charset() -> Seq<char> {
    "ABCDEFGHIJKLMNOPQRSTUVWXYZabcdefghijklmnopqrstuvwxyz0123456789"@
}

/// A number below `n`, drawn at random (`rand::random_range`).
#[verifier::external_body]
fn random_below(n: usize) -> (r: usize)
    requires
        n > 0,
    ensures
        r < n,
{
    rand::random_range(0..n)
}

/// The id whose characters are those of the charset at `draws`, in order.
pub open spec fn id_of_draws(draws: Seq<usize>) -> Seq<char> {
    draws.map_values(|k: usize| id_charset()[k as int])
}

/// The id made of the characters of the charset at the indices `draws`.
pub fn id_from_draws(draws: &Vec<usize>) -> (s: String)
    requires
        forall|i: int| 0 <= i < draws@.len() ==> draws@[i] < 62,
    ensures
        s@ == id_of_draws(draws@),
{
    let charset = "ABCDEFGHIJKLMNOPQRSTUVWXYZabcdefghijklmnopqrstuvwxyz0123456789";
    proof {
        reveal_strlit("ABCDEFGHIJKLMNOPQRSTUVWXYZabcdefghijklmnopqrstuvwxyz0123456789");
    }
    assert(charset@.len() == 62);
    assert(charset.is_ascii());
    let mut s = String::new();
    let mut i: usize = 0;
    while i < draws.len()
        invariant
            charset@ == id_charset(),
            charset@.len() == 62,
            charset.is_ascii(),
            i <= draws@.len(),
            forall|j: int| 0 <= j < draws@.len() ==> draws@[j] < 62,
            s@ == id_of_draws(draws@.take(i as int)),
        decreases draws.len() - i,
    {
        let k = draws[i];
        let c = charset.substring_ascii(k, k + 1);
        let ghost before = s@;
        s.append(c);
        proof {
            assert(c@ == charset@.subrange(k as int, k + 1));
            assert(draws@.take(i + 1) =~= draws@.take(i as int).push(k));
            assert(s@ =~= id_of_draws(draws@.take(i + 1)));
        }
        i = i + 1;
    }
    assert(draws@.take(draws@.len() as int) =~= draws@);
    s
}

/// A random id of `len` letters and digits, each drawn uniformly from the charset.
pub fn new_id(len: usize) -> (s: String)
    ensures
        exists|d: Seq<usize>|
            d.len() == len && (forall|i: int| 0 <= i < len ==> d[i] < 62) && s@ == id_of_draws(d),
        s@.len() == len,
        forall|i: int| 0 <= i < len ==> id_charset().contains(#[trigger] s@[i]),
{
    let mut draws: Vec<usize> = Vec::new();
    let mut i: usize = 0;
    while i < len
        invariant
            i <= len,
            draws@.len() == i,
            forall|j: int| 0 <= j < i ==> draws@[j] < 62,
        decreases len - i,
    {
        draws.push(random_below(62));
        i = i + 1;
    }
    let s = id_from_draws(&draws);
    proof {
        assert(id_charset().len() == 62) by {
            reveal_strlit("ABCDEFGHIJKLMNOPQRSTUVWXYZabcdefghijklmnopqrstuvwxyz0123456789");
        }
        assert forall|i: int| 0 <= i < len implies id_charset().contains(#[trigger] s@[i]) by {
            assert(s@[i] == id_charset()[draws@[i] as int]);
        }
    }
    s
}

/// The id of the session found for a confirmed login, if one was found.
pub fn found_session(first: Option<String>) -> (r: Result<String, AppError>)
    ensures
        match first {
            Some(id) => r == Ok::<String, AppError>(id),
            None => r matches Err(e) && e is NotAuthorized,
        },
{
    match first {
        Some(id) => Ok(id),
        None => Err(AppError::NotAuthorized()),
    }
}

} // verus!
