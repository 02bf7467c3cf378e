use vstd::prelude::*;

verus! {

/// A decimal digit.
pub open spec fn is_dec_digit(c: char) -> bool {
    48 <= c as u32 && c as u32 <= 57
}

/// Numeric value of the digit `c`.
pub open spec fn digit_val(c: char) -> int {
    c as u32 - 48
}

/// Value of `s` read as a decimal numeral, most significant digit first.
pub open spec fn dec_val(s: Seq<char>) -> int
    decreases s.len(),
{
    if s.len() == 0 {
        0
    } else {
        dec_val(s.drop_last()) * 10 + digit_val(s.last())
    }
}

/// Every character of `s` is a decimal digit.
pub open spec fn all_dec_digits(s: Seq<char>) -> bool {
    forall|i: int| 0 <= i < s.len() ==> is_dec_digit(#[trigger] s[i])
}

/// The digits of a numeral once an optional leading plus sign is dropped.
pub open spec fn unsigned_part(s: Seq<char>) -> Seq<char> {
    if s.len() > 0 && s[0] == '+' {
        s.skip(1)
    } else {
        s
    }
}

/// What reading `s` as a port number yields: defined exactly when the
/// numeral (after an optional plus sign) is non-empty, all digits, and its
/// value fits in sixteen bits.
pub open spec fn parsed_port(s: Seq<char>) -> Option<u16> {
    let d = unsigned_part(s);
    if d.len() > 0 && all_dec_digits(d) && dec_val(d) <= 0xFFFF {
        Some(dec_val(d) as u16)
    } else {
        None
    }
}

/// A numeral of digits has a nonnegative value.
proof fn lemma_dec_val_nonneg(s: Seq<char>)
    requires
        all_dec_digits(s),
    ensures
        dec_val(s) >= 0,
    decreases s.len(),
{
    if s.len() > 0 {
        assert(all_dec_digits(s.drop_last()));
        lemma_dec_val_nonneg(s.drop_last());
    }
}

/// Extending a digit numeral on the right never lowers its value.
proof fn lemma_dec_val_prefix_le(s: Seq<char>, k: int)
    requires
        0 <= k <= s.len(),
        all_dec_digits(s),
    ensures
        dec_val(s.take(k)) <= dec_val(s),
    decreases s.len() - k,
{
    if k < s.len() {
        assert(s.take(k + 1).drop_last() =~= s.take(k));
        assert(s.take(k + 1).last() == s[k]);
        assert(all_dec_digits(s.take(k)));
        lemma_dec_val_nonneg(s.take(k));
        assert(dec_val(s.take(k + 1)) == dec_val(s.take(k)) * 10 + digit_val(s[k]));
        lemma_dec_val_prefix_le(s, k + 1);
    } else {
        assert(s.take(k) =~= s);
    }
}

/// Reads `s` as a decimal port number, accepting an optional leading plus
/// sign and rejecting empty numerals, other characters, and values over
/// sixteen bits.
pub fn parse_port(s: &str) -> (r: Option<u16>)
    ensures
        r == parsed_port(s@),
{
    let n: usize = s.unicode_len();
    let start: usize = if n > 0 && s.get_char(0) == '+' {
        1
    } else {
        0
    };
    let ghost d = unsigned_part(s@);
    if n == start {
        proof {
            assert(d.len() == 0);
        }
        return None;
    }
    let mut acc: u32 = 0;
    let mut i: usize = start;
    while i < n
        invariant
            start <= i <= n,
            n == s@.len(),
            n > start,
            start == 1 ==> n > 0 && s@[0] == '+',
            start == 0 ==> !(n > 0 && s@[0] == '+'),
            d == unsigned_part(s@),
            d.len() == n - start,
            all_dec_digits(d.take(i - start)),
            acc as int == dec_val(d.take(i - start)),
            acc <= 0xFFFF,
        decreases n - i,
    {
        let c = s.get_char(i);
        let v: u32 = c as u32;
        proof {
            assert(d[i - start] == s@[i as int]);
        }
        if v < 48 || v > 57 {
            proof {
                assert(!is_dec_digit(d[i - start]));
                assert(!all_dec_digits(d));
            }
            return None;
        }
        proof {
            assert(d.take(i - start + 1).drop_last() =~= d.take(i - start));
            assert(d.take(i - start + 1).last() == d[i - start]);
            lemma_dec_val_nonneg(d.take(i - start));
        }
        acc = acc * 10 + (v - 48);
        if acc > 0xFFFF {
            proof {
                if all_dec_digits(d) {
                    lemma_dec_val_prefix_le(d, i - start + 1);
                }
            }
            return None;
        }
        i += 1;
    }
    proof {
        assert(d.take(n - start) =~= d);
    }
    Some(acc as u16)
}

/// The port setting: the given text read as a port number, or 8083 when the
/// setting is absent or unreadable.
pub open spec fn port_of(raw: Option<Seq<char>>) -> u16 {
    match raw {
        Option::Some(s) => match parsed_port(s) {
            Option::Some(p) => p,
            Option::None => 8083,
        },
        Option::None => 8083,
    }
}

/// The first setting that is present, or empty text when neither is.
pub open spec fn first_or_empty(a: Option<Seq<char>>, b: Option<Seq<char>>) -> Seq<char> {
    match a {
        Option::Some(s) => s,
        Option::None => match b {
            Option::Some(s) => s,
            Option::None => Seq::empty(),
        },
    }
}

/// The given setting, or the fallback text when it is absent.
pub open spec fn or_fallback(a: Option<Seq<char>>, fallback: Seq<char>) -> Seq<char> {
    match a {
        Option::Some(s) => s,
        Option::None => fallback,
    }
}

/// Settings the surrounding process reads from its environment and hands to
/// the core at construction time; they are fixed from then on.
#[derive(Clone, Debug)]
pub struct AppConfig {
    pub port: u16,
    pub llm_base_url: String,
    pub llm_model_name: String,
    pub log_level: String,
}

impl AppConfig {
    /// Resolves raw environment text into settings: the port falls back to
    /// 8083 when absent or unreadable, each backend setting prefers its
    /// first variable over the legacy one and is empty when both are absent,
    /// and the log level falls back to "info".
    pub fn from_raw(
        port: Option<String>,
        llama_url: Option<String>,
        llm_base_url: Option<String>,
        llama_model: Option<String>,
        llm_model_name: Option<String>,
        log_level: Option<String>,
    ) -> (r: AppConfig)
        ensures
            r.port == port_of(port.deep_view()),
            r.llm_base_url@ == first_or_empty(llama_url.deep_view(), llm_base_url.deep_view()),
            r.llm_model_name@ == first_or_empty(
                llama_model.deep_view(),
                llm_model_name.deep_view(),
            ),
            r.log_level@ == or_fallback(log_level.deep_view(), "info"@),
    {
        let port_num: u16 = match port {
            Some(s) => match parse_port(s.as_str()) {
                Some(p) => p,
                None => 8083,
            },
            None => 8083,
        };
        let base_url = Self::first_present(llama_url, llm_base_url);
        let model_name = Self::first_present(llama_model, llm_model_name);
        let level = match log_level {
            Some(s) => s,
            None => "info".to_owned(),
        };
        AppConfig { port: port_num, llm_base_url: base_url, llm_model_name: model_name, log_level: level }
    }

    /// The first setting that is present, or the empty string.
    fn first_present(a: Option<String>, b: Option<String>) -> (r: String)
        ensures
            r@ == first_or_empty(a.deep_view(), b.deep_view()),
    {
        match a {
            Some(s) => s,
            None => match b {
                Some(s) => s,
                None => String::new(),
            },
        }
    }
}

} // verus!
