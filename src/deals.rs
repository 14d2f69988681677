//! Requests to the isthereanydeal.com price service: the addresses to
//! fetch, where the answer sits in the returned document, and how a
//! discount is graded.
use vstd::prelude::*;
use vstd::string::StringSliceAdditionalSpecFns;

verus! {

/// True for the bytes `0-9`, `A-Z` and `a-z`.
pub open spec fn is_alphanumeric_byte(b: u8) -> bool {
    (48 <= b <= 57) || (65 <= b <= 90) || (97 <= b <= 122)
}

/// The upper-case hexadecimal digit of `n`, for `n < 16`.
pub open spec fn hex_digit(n: u8) -> char {
    if n < 10 {
        (48 + n) as char
    } else {
        (55 + n) as char
    }
}

/// `bytes` with every byte but an ASCII letter or digit written as `%`
/// and two upper-case hexadecimal digits.
pub open spec fn percent_encoded(bytes: Seq<u8>) -> Seq<char>
    decreases bytes.len(),
{
    if bytes.len() == 0 {
        Seq::empty()
    } else {
        let b = bytes.last();
        let prefix = percent_encoded(bytes.drop_last());
        if is_alphanumeric_byte(b) {
            prefix.push(b as char)
        } else {
            prefix + seq!['%', hex_digit(b / 16), hex_digit(b % 16)]
        }
    }
}

/// Relies on `percent_encoding::percent_encode` with the `NON_ALPHANUMERIC`
/// set: it writes each byte outside that set as itself and each byte in it
/// as `%XX`, upper-case.
#[verifier::external_body]
fn percent_encode_text(text: &str) -> (r: String)
    ensures
        r@ == percent_encoded(text.spec_bytes()),
{
    percent_encoding::percent_encode(text.as_bytes(), percent_encoding::NON_ALPHANUMERIC).to_string()
}

/// The address that looks up the service's identifier of a game by its title.
pub fn format_itad_plain_uri(api_key: &str, search_text: &str) -> (r: String)
    ensures
        r@ == "https://api.isthereanydeal.com/v02/game/plain/?key="@ + api_key@ + "&title="@
            + percent_encoded(search_text.spec_bytes()),
{
    let mut uri = String::from_str("https://api.isthereanydeal.com/v02/game/plain/?key=");
    uri.append(api_key);
    uri.append("&title=");
    let encoded = percent_encode_text(search_text);
    uri.append(encoded.as_str());
    uri
}

/// The address of the current prices of the game with identifier `plain_id`.
pub fn format_itad_deal_uri(api_key: &str, plain_id: &str) -> (r: String)
    ensures
        r@ == "https://api.isthereanydeal.com/v01/game/prices/?key="@ + api_key@ + "&plains="@
            + plain_id@ + "&country=US"@,
{
    let mut uri = String::from_str("https://api.isthereanydeal.com/v01/game/prices/?key=");
    uri.append(api_key);
    uri.append("&plains=");
    uri.append(plain_id);
    uri.append("&country=US");
    uri
}

/// The address of the title and picture of the game with identifier `plain_id`.
pub fn format_itad_info_uri(api_key: &str, plain_id: &str) -> (r: String)
    ensures
        r@ == "https://api.isthereanydeal.com/v01/game/info/?key="@ + api_key@ + "&plains="@
            + plain_id@,
{
    let mut uri = String::from_str("https://api.isthereanydeal.com/v01/game/info/?key=");
    uri.append(api_key);
    uri.append("&plains=");
    uri.append(plain_id);
    uri
}

/// Where the best current deal for `plain_id` sits in the prices answer.
pub fn deal_pointer(plain_id: &str) -> (r: String)
    ensures
        r@ == "/data/"@ + plain_id@ + "/list/0"@,
{
    let mut p = String::from_str("/data/");
    p.append(plain_id);
    p.append("/list/0");
    p
}

/// Where the title and picture of `plain_id` sit in the info answer.
pub fn info_pointer(plain_id: &str) -> (r: String)
    ensures
        r@ == "/data/"@ + plain_id@,
{
    let mut p = String::from_str("/data/");
    p.append(plain_id);
    p
}

/// How good a discount is, which decides the colour it is shown in.
#[derive(Debug, Clone, Copy, PartialEq, Eq, Structural)]
pub enum DealTier {
    /// A cut of 0 to 24 percent.
    Small,
    /// A cut of 25 to 49 percent.
    Fair,
    /// Any other cut.
    Large,
}

/// Grades a price cut given in percent.
pub fn deal_tier(price_cut: i64) -> (r: DealTier)
    ensures
        r == (if 0 <= price_cut <= 24 {
            DealTier::Small
        } else if 25 <= price_cut <= 49 {
            DealTier::Fair
        } else {
            DealTier::Large
        }),
{
    if 0 <= price_cut && price_cut <= 24 {
        DealTier::Small
    } else if 25 <= price_cut && price_cut <= 49 {
        DealTier::Fair
    } else {
        DealTier::Large
    }
}

/// True when the game sells below its usual price.
pub fn is_on_sale(price_cut: i64) -> (r: bool)
    ensures
        r == (price_cut != 0),
{
    price_cut != 0
}

/// The title and cover picture that the service knows a game by.
#[derive(Debug, Clone, PartialEq, Eq)]
pub struct ItadInfo {
    pub title: String,
    pub image: String,
}

/// The heading of a deals answer: the service's title of the game when it
/// is known, else the title that was searched for.
pub fn deal_title(info: &Option<ItadInfo>, game: &str) -> (r: String)
    ensures
        r@ == "Deals for "@ + match info {
            Some(i) => i.title@,
            None => game@,
        },
{
    let mut t = String::from_str("Deals for ");
    match info {
        Some(i) => t.append(i.title.as_str()),
        None => t.append(game),
    }
    t
}

} // verus!
