//! Placeholder substitution for the server-rendered views. Template text is
//! handed in by the caller (it lives in files the web layer loads); every
//! function here states the exact substitution it performs.

use vstd::prelude::*;
use vstd::string::StrSliceExecFns;
use vstd::string::StringExecFns;

use crate::text::{dec_str, push_char, replace, replace_text, u64_to_string};
use crate::voucher::{Voucher, VoucherModel};

verus! {

/// The voucher-card template with image, credentials and code filled in.
pub open spec fn voucher_card_text(
    t: Seq<char>,
    qr: Seq<char>,
    ssid: Seq<char>,
    name: Seq<char>,
    code: Seq<char>,
) -> Seq<char> {
    let s = replace_text(t, "{{QR_CODE_BASE64}}"@, qr);
    let s = replace_text(s, "{{NETWORK_SSID}}"@, ssid);
    let s = replace_text(s, "{{NETWORK_NAME}}"@, name);
    replace_text(s, "{{VOUCHER_CODE}}"@, code)
}

/// One printable voucher card.
pub fn generate_voucher_card(
    template: &str,
    qr_code_base64: &str,
    network_ssid: &str,
    network_name: &str,
    voucher_code: &str,
) -> (r: String)
    ensures
        r@ == voucher_card_text(
            template@,
            qr_code_base64@,
            network_ssid@,
            network_name@,
            voucher_code@,
        ),
{
    let s = replace(template, "{{QR_CODE_BASE64}}", qr_code_base64);
    let s = replace(s.as_str(), "{{NETWORK_SSID}}", network_ssid);
    let s = replace(s.as_str(), "{{NETWORK_NAME}}", network_name);
    replace(s.as_str(), "{{VOUCHER_CODE}}", voucher_code)
}

/// The vouchers page with count, network and rendered cards filled in.
pub open spec fn vouchers_page_text(
    t: Seq<char>,
    count: nat,
    name: Seq<char>,
    ssid: Seq<char>,
    cards: Seq<char>,
) -> Seq<char> {
    let s = replace_text(t, "{{VOUCHER_COUNT}}"@, dec_str(count));
    let s = replace_text(s, "{{NETWORK_NAME}}"@, name);
    let s = replace_text(s, "{{NETWORK_SSID}}"@, ssid);
    replace_text(s, "{{VOUCHER_CARDS}}"@, cards)
}

/// The printable page that gathers a batch of voucher cards.
pub fn generate_vouchers_page(
    template: &str,
    voucher_count: usize,
    network_name: &str,
    network_ssid: &str,
    voucher_cards: &str,
) -> (r: String)
    ensures
        r@ == vouchers_page_text(
            template@,
            voucher_count as nat,
            network_name@,
            network_ssid@,
            voucher_cards@,
        ),
{
    let count = u64_to_string(voucher_count as u64);
    let s = replace(template, "{{VOUCHER_COUNT}}", count.as_str());
    let s = replace(s.as_str(), "{{NETWORK_NAME}}", network_name);
    let s = replace(s.as_str(), "{{NETWORK_SSID}}", network_ssid);
    replace(s.as_str(), "{{VOUCHER_CARDS}}", voucher_cards)
}

/// The statistics panel shown on a successful upload, before its count is
/// filled in.
pub open spec fn stats_template_text() -> Seq<char> {
    "\n            <div class=\"mt-6 bg-gradient-to-r from-green-50 to-emerald-50 rounded-2xl p-6 border border-green-200\">\n                <div class=\"text-center\">\n                    <div class=\"flex items-center justify-center space-x-6\">\n                        <div class=\"text-center\">\n                            <div class=\"text-3xl font-bold text-green-800\">{{COUNT}}</div>\n                            <div class=\"text-sm text-green-600 font-medium\">Vouchers Loaded</div>\n                        </div>\n                        <div class=\"w-px h-12 bg-green-300\"></div>\n                        <div class=\"text-center\">\n                            <div class=\"text-3xl font-bold text-green-800\">\u{2713}</div>\n                            <div class=\"text-sm text-green-600 font-medium\">Ready to Print</div>\n                        </div>\n                    </div>\n                </div>\n            </div>\n            "@
}

fn stats_template() -> (r: &'static str)
    ensures
        r@ == stats_template_text(),
{
    "\n            <div class=\"mt-6 bg-gradient-to-r from-green-50 to-emerald-50 rounded-2xl p-6 border border-green-200\">\n                <div class=\"text-center\">\n                    <div class=\"flex items-center justify-center space-x-6\">\n                        <div class=\"text-center\">\n                            <div class=\"text-3xl font-bold text-green-800\">{{COUNT}}</div>\n                            <div class=\"text-sm text-green-600 font-medium\">Vouchers Loaded</div>\n                        </div>\n                        <div class=\"w-px h-12 bg-green-300\"></div>\n                        <div class=\"text-center\">\n                            <div class=\"text-3xl font-bold text-green-800\">\u{2713}</div>\n                            <div class=\"text-sm text-green-600 font-medium\">Ready to Print</div>\n                        </div>\n                    </div>\n                </div>\n            </div>\n            "
}

/// The statistics panel for a given voucher count: present when the count is
/// positive, absent otherwise.
pub open spec fn stats_section_text(count: nat) -> Seq<char> {
    if count > 0 {
        replace_text(stats_template_text(), "{{COUNT}}"@, dec_str(count))
    } else {
        Seq::empty()
    }
}

/// The response page in its success styling, with title, message, statistics
/// and action buttons filled in.
pub open spec fn success_response_text(
    t: Seq<char>,
    title: Seq<char>,
    message: Seq<char>,
    count: nat,
    buttons: Seq<char>,
) -> Seq<char> {
    let s = replace_text(t, "{{TITLE}}"@, title);
    let s = replace_text(s, "{{SUBTITLE}}"@, "Operation completed successfully"@);
    let s = replace_text(
        s,
        "{{HEADER_GRADIENT}}"@,
        "bg-gradient-to-r from-emerald-500 to-teal-600"@,
    );
    let s = replace_text(s, "{{ICON_CLASS}}"@, "fas fa-check-circle"@);
    let s = replace_text(s, "{{TEXT_COLOR_CLASS}}"@, "text-emerald-100"@);
    let s = replace_text(s, "{{MESSAGE_BG_CLASS}}"@, "bg-gradient-to-r from-green-50 to-emerald-50"@);
    let s = replace_text(s, "{{MESSAGE_BORDER_CLASS}}"@, "border-green-200"@);
    let s = replace_text(s, "{{MESSAGE_ICON_CLASS}}"@, "fas fa-check-circle text-green-600"@);
    let s = replace_text(s, "{{MESSAGE_TEXT_CLASS}}"@, "text-green-800"@);
    let s = replace_text(s, "{{MESSAGE_TITLE}}"@, "Success!"@);
    let s = replace_text(s, "{{MESSAGE_CONTENT}}"@, message);
    let s = replace_text(s, "{{PRIMARY_BUTTON}}"@, buttons);
    let s = replace_text(s, "{{SECONDARY_BUTTONS}}"@, ""@);
    let s = replace_text(s, "{{ADDITIONAL_INFO}}"@, ""@);
    let s = replace_text(s, "{{STATS_SECTION}}"@, stats_section_text(count));
    let s = replace_text(s, "{{AUTO_REDIRECT}}"@, "false"@);
    let s = replace_text(s, "{{REDIRECT_URL}}"@, ""@);
    replace_text(s, "{{REDIRECT_DELAY}}"@, "0"@)
}

/// A success page for the response template.
pub fn success_response(
    template: &str,
    title: &str,
    message: &str,
    voucher_count: usize,
    buttons: &str,
) -> (r: String)
    ensures
        r@ == success_response_text(
            template@,
            title@,
            message@,
            voucher_count as nat,
            buttons@,
        ),
{
    let stats_section = if voucher_count > 0 {
        let count = u64_to_string(voucher_count as u64);
        replace(stats_template(), "{{COUNT}}", count.as_str())
    } else {
        String::new()
    };
    let s = replace(template, "{{TITLE}}", title);
    let s = replace(s.as_str(), "{{SUBTITLE}}", "Operation completed successfully");
    let s = replace(
        s.as_str(),
        "{{HEADER_GRADIENT}}",
        "bg-gradient-to-r from-emerald-500 to-teal-600",
    );
    let s = replace(s.as_str(), "{{ICON_CLASS}}", "fas fa-check-circle");
    let s = replace(s.as_str(), "{{TEXT_COLOR_CLASS}}", "text-emerald-100");
    let s = replace(
        s.as_str(),
        "{{MESSAGE_BG_CLASS}}",
        "bg-gradient-to-r from-green-50 to-emerald-50",
    );
    let s = replace(s.as_str(), "{{MESSAGE_BORDER_CLASS}}", "border-green-200");
    let s = replace(s.as_str(), "{{MESSAGE_ICON_CLASS}}", "fas fa-check-circle text-green-600");
    let s = replace(s.as_str(), "{{MESSAGE_TEXT_CLASS}}", "text-green-800");
    let s = replace(s.as_str(), "{{MESSAGE_TITLE}}", "Success!");
    let s = replace(s.as_str(), "{{MESSAGE_CONTENT}}", message);
    let s = replace(s.as_str(), "{{PRIMARY_BUTTON}}", buttons);
    let s = replace(s.as_str(), "{{SECONDARY_BUTTONS}}", "");
    let s = replace(s.as_str(), "{{ADDITIONAL_INFO}}", "");
    let s = replace(s.as_str(), "{{STATS_SECTION}}", stats_section.as_str());
    let s = replace(s.as_str(), "{{AUTO_REDIRECT}}", "false");
    let s = replace(s.as_str(), "{{REDIRECT_URL}}", "");
    replace(s.as_str(), "{{REDIRECT_DELAY}}", "0")
}

/// The response page in its error styling, with title, message and action
/// buttons filled in.
pub open spec fn error_response_text(
    t: Seq<char>,
    title: Seq<char>,
    message: Seq<char>,
    buttons: Seq<char>,
) -> Seq<char> {
    let s = replace_text(t, "{{TITLE}}"@, title);
    let s = replace_text(
        s,
        "{{SUBTITLE}}"@,
        "An error occurred while processing your request"@,
    );
    let s = replace_text(s, "{{HEADER_GRADIENT}}"@, "bg-gradient-to-r from-red-500 to-pink-600"@);
    let s = replace_text(s, "{{ICON_CLASS}}"@, "fas fa-exclamation-triangle"@);
    let s = replace_text(s, "{{TEXT_COLOR_CLASS}}"@, "text-red-100"@);
    let s = replace_text(s, "{{MESSAGE_BG_CLASS}}"@, "bg-gradient-to-r from-red-50 to-pink-50"@);
    let s = replace_text(s, "{{MESSAGE_BORDER_CLASS}}"@, "border-red-200"@);
    let s = replace_text(s, "{{MESSAGE_ICON_CLASS}}"@, "fas fa-exclamation-circle text-red-600"@);
    let s = replace_text(s, "{{MESSAGE_TEXT_CLASS}}"@, "text-red-800"@);
    let s = replace_text(s, "{{MESSAGE_TITLE}}"@, "Error!"@);
    let s = replace_text(s, "{{MESSAGE_CONTENT}}"@, message);
    let s = replace_text(s, "{{PRIMARY_BUTTON}}"@, buttons);
    let s = replace_text(s, "{{SECONDARY_BUTTONS}}"@, ""@);
    let s = replace_text(s, "{{ADDITIONAL_INFO}}"@, ""@);
    let s = replace_text(s, "{{STATS_SECTION}}"@, ""@);
    let s = replace_text(s, "{{AUTO_REDIRECT}}"@, "false"@);
    let s = replace_text(s, "{{REDIRECT_URL}}"@, ""@);
    replace_text(s, "{{REDIRECT_DELAY}}"@, "0"@)
}

/// An error page for the response template.
pub fn error_response(template: &str, title: &str, message: &str, buttons: &str) -> (r: String)
    ensures
        r@ == error_response_text(template@, title@, message@, buttons@),
{
    let s = replace(template, "{{TITLE}}", title);
    let s = replace(s.as_str(), "{{SUBTITLE}}", "An error occurred while processing your request");
    let s = replace(s.as_str(), "{{HEADER_GRADIENT}}", "bg-gradient-to-r from-red-500 to-pink-600");
    let s = replace(s.as_str(), "{{ICON_CLASS}}", "fas fa-exclamation-triangle");
    let s = replace(s.as_str(), "{{TEXT_COLOR_CLASS}}", "text-red-100");
    let s = replace(s.as_str(), "{{MESSAGE_BG_CLASS}}", "bg-gradient-to-r from-red-50 to-pink-50");
    let s = replace(s.as_str(), "{{MESSAGE_BORDER_CLASS}}", "border-red-200");
    let s = replace(s.as_str(), "{{MESSAGE_ICON_CLASS}}", "fas fa-exclamation-circle text-red-600");
    let s = replace(s.as_str(), "{{MESSAGE_TEXT_CLASS}}", "text-red-800");
    let s = replace(s.as_str(), "{{MESSAGE_TITLE}}", "Error!");
    let s = replace(s.as_str(), "{{MESSAGE_CONTENT}}", message);
    let s = replace(s.as_str(), "{{PRIMARY_BUTTON}}", buttons);
    let s = replace(s.as_str(), "{{SECONDARY_BUTTONS}}", "");
    let s = replace(s.as_str(), "{{ADDITIONAL_INFO}}", "");
    let s = replace(s.as_str(), "{{STATS_SECTION}}", "");
    let s = replace(s.as_str(), "{{AUTO_REDIRECT}}", "false");
    let s = replace(s.as_str(), "{{REDIRECT_URL}}", "");
    replace(s.as_str(), "{{REDIRECT_DELAY}}", "0")
}

/// The provisioning payload for a network's credentials: the fixed-syntax
/// string a scanner reads to auto-configure, byte for byte.
pub open spec fn wifi_payload_text(ssid: Seq<char>, password: Seq<char>) -> Seq<char> {
    "WIFI:T:WPA;S:"@ + ssid + ";P:"@ + password + ";H:false;;"@
}

/// The provisioning payload embedding one network's credentials.
pub fn wifi_payload(ssid: &str, password: &str) -> (r: String)
    ensures
        r@ == wifi_payload_text(ssid@, password@),
{
    let mut s = String::from_str("WIFI:T:WPA;S:");
    s.append(ssid);
    s.append(";P:");
    s.append(password);
    s.append(";H:false;;");
    proof {
        assert(s@ =~= wifi_payload_text(ssid@, password@));
    }
    s
}

/// The cards of a voucher batch, one per voucher in order, joined by
/// newlines.
pub open spec fn voucher_cards_text(
    t: Seq<char>,
    qr: Seq<char>,
    ssid: Seq<char>,
    name: Seq<char>,
    vs: Seq<VoucherModel>,
) -> Seq<char>
    decreases vs.len(),
{
    if vs.len() == 0 {
        Seq::empty()
    } else if vs.len() == 1 {
        voucher_card_text(t, qr, ssid, name, vs[0].code)
    } else {
        voucher_card_text(t, qr, ssid, name, vs[0].code) + seq!['\n'] + voucher_cards_text(
            t,
            qr,
            ssid,
            name,
            vs.drop_first(),
        )
    }
}

proof fn lemma_cards_push(
    t: Seq<char>,
    qr: Seq<char>,
    ssid: Seq<char>,
    name: Seq<char>,
    vs: Seq<VoucherModel>,
    v: VoucherModel,
)
    ensures
        voucher_cards_text(t, qr, ssid, name, vs.push(v)) == if vs.len() == 0 {
            voucher_card_text(t, qr, ssid, name, v.code)
        } else {
            voucher_cards_text(t, qr, ssid, name, vs) + seq!['\n'] + voucher_card_text(
                t,
                qr,
                ssid,
                name,
                v.code,
            )
        },
    decreases vs.len(),
{
    let w = vs.push(v);
    assert(w[0] == if vs.len() == 0 {
        v
    } else {
        vs[0]
    });
    if vs.len() == 0 {
    } else if vs.len() == 1 {
        assert(w.drop_first() =~= seq![v]);
        assert(voucher_cards_text(t, qr, ssid, name, seq![v]) == voucher_card_text(
            t,
            qr,
            ssid,
            name,
            v.code,
        ));
    } else {
        assert(w.drop_first() =~= vs.drop_first().push(v));
        lemma_cards_push(t, qr, ssid, name, vs.drop_first(), v);
        assert((voucher_card_text(t, qr, ssid, name, vs[0].code) + seq!['\n'] + (
        voucher_cards_text(t, qr, ssid, name, vs.drop_first()) + seq!['\n'] + voucher_card_text(
            t,
            qr,
            ssid,
            name,
            v.code,
        ))) =~= (voucher_cards_text(t, qr, ssid, name, vs) + seq!['\n'] + voucher_card_text(
            t,
            qr,
            ssid,
            name,
            v.code,
        )));
    }
}

/// Every card of a batch, rendered and joined by newlines, in batch order.
pub fn render_voucher_cards(
    template: &str,
    qr_code_base64: &str,
    network_ssid: &str,
    network_name: &str,
    vouchers: &Vec<Voucher>,
) -> (r: String)
    ensures
        r@ == voucher_cards_text(
            template@,
            qr_code_base64@,
            network_ssid@,
            network_name@,
            vouchers.deep_view(),
        ),
{
    let ghost vs = vouchers.deep_view();
    let n = vouchers.len();
    let mut out = String::new();
    proof {
        assert(vs.take(0) =~= Seq::<VoucherModel>::empty());
    }
    let mut i: usize = 0;
    while i < n
        invariant
            vs == vouchers.deep_view(),
            n == vs.len(),
            i <= n,
            out@ == voucher_cards_text(
                template@,
                qr_code_base64@,
                network_ssid@,
                network_name@,
                vs.take(i as int),
            ),
        decreases n - i,
    {
        if i > 0 {
            push_char(&mut out, '\n');
        }
        let card = generate_voucher_card(
            template,
            qr_code_base64,
            network_ssid,
            network_name,
            vouchers[i].code.as_str(),
        );
        out.append(card.as_str());
        i = i + 1;
        proof {
            assert(vouchers@[i - 1]@ == vs[i - 1]);
            assert(vs.take(i as int) =~= vs.take(i - 1).push(vs[i - 1]));
            lemma_cards_push(
                template@,
                qr_code_base64@,
                network_ssid@,
                network_name@,
                vs.take(i - 1),
                vs[i - 1],
            );
            if i > 1 {
                assert(out@ =~= voucher_cards_text(
                    template@,
                    qr_code_base64@,
                    network_ssid@,
                    network_name@,
                    vs.take(i - 1),
                ) + seq!['\n'] + card@);
            } else {
                assert(out@ =~= card@);
            }
        }
    }
    proof {
        assert(vs.take(n as int) =~= vs);
    }
    out
}

} // verus!
