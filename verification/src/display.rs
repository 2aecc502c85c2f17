//! The human-readable report: a header per event and, in verbose mode,
//! one line per field, with balance-labelled amounts rendered through the
//! token metadata.

use vstd::prelude::*;
use crate::events::{DisplayEvents, EventModel, FieldModel};
use crate::num::{dec_str, pow10, pow10_u128, u128_to_dec};
use crate::render::{render_model, render_value};
use crate::strconv::str_eq;
use crate::value::ValueModel;

verus! {

/// The column width the report's leading labels are right-aligned to.
pub const KEY_COL_WIDTH: usize = 12;

/// How much detail the report carries: only verbose output lists fields.
pub enum Verbosity {
    Quiet,
    Default,
    Verbose,
}

impl Verbosity {
    /// Whether per-field detail is emitted.
    pub fn is_verbose(&self) -> (r: bool)
        ensures
            r == (*self is Verbose),
    {
        match self {
            Verbosity::Verbose => true,
            _ => false,
        }
    }
}

/// Token metadata for rendering balance amounts: the symbol and how many
/// low decimal digits of a raw amount lie below one whole token.
pub struct TokenMetadata {
    pub symbol: String,
    pub decimals: u32,
}

/// `n` digits of `frac` in decimal, zero padded, most significant first.
pub open spec fn frac_digits_str(frac: nat, n: nat) -> Seq<char>
    decreases n,
{
    if n == 0 {
        Seq::empty()
    } else {
        frac_digits_str(frac / 10, (n - 1) as nat).push(crate::num::digit_char(frac % 10))
    }
}

/// The rendered balance: the whole-token part, the fractional digits when
/// any are nonzero, and the token symbol.
pub open spec fn balance_str(v: nat, decimals: nat, symbol: Seq<char>) -> Seq<char> {
    let whole = v / pow10(decimals);
    let frac = v % pow10(decimals);
    if frac == 0 {
        dec_str(whole) + " "@ + symbol
    } else {
        dec_str(whole) + "."@ + frac_digits_str(frac, decimals) + " "@ + symbol
    }
}

fn frac_digits(frac: u128, n: u32) -> (s: String)
    ensures
        s@ == frac_digits_str(frac as nat, n as nat),
    decreases n,
{
    if n == 0 {
        String::new()
    } else {
        let mut s = frac_digits(frac / 10, n - 1);
        let d = crate::num::digit_string(frac % 10);
        s.append(d.as_str());
        proof {
            assert(s@ =~= frac_digits_str((frac / 10) as nat, (n - 1) as nat).push(
                crate::num::digit_char((frac % 10) as nat),
            ));
        }
        s
    }
}

/// Renders a raw balance amount with the token's symbol and decimal
/// scaling.  The decimal count must leave `10^decimals` within 128 bits.
pub fn format_balance(v: u128, token: &TokenMetadata) -> (r: String)
    requires
        token.decimals <= 38,
    ensures
        r@ == balance_str(v as nat, token.decimals as nat, token.symbol@),
{
    let p = pow10_u128(token.decimals);
    proof {
        crate::num::lemma_pow10_pos(token.decimals as nat);
        reveal_strlit(" ");
        reveal_strlit(".");
    }
    let whole = v / p;
    let frac = v % p;
    let mut out = u128_to_dec(whole);
    if frac == 0 {
        out.append(" ");
        out.append(token.symbol.as_str());
        proof {
            assert(out@ =~= balance_str(v as nat, token.decimals as nat, token.symbol@));
        }
        out
    } else {
        out.append(".");
        let f = frac_digits(frac, token.decimals);
        out.append(f.as_str());
        out.append(" ");
        out.append(token.symbol.as_str());
        proof {
            assert(out@ =~= balance_str(v as nat, token.decimals as nat, token.symbol@));
        }
        out
    }
}

/// `n` spaces.
pub open spec fn spaces(n: nat) -> Seq<char>
    decreases n,
{
    if n == 0 {
        Seq::empty()
    } else {
        seq![' '] + spaces((n - 1) as nat)
    }
}

/// `s` right-aligned to width `w` with spaces.
pub open spec fn pad_left(s: Seq<char>, w: nat) -> Seq<char> {
    if s.len() >= w {
        s
    } else {
        spaces((w - s.len()) as nat) + s
    }
}

fn spaces_string(n: usize) -> (r: String)
    ensures
        r@ == spaces(n as nat),
    decreases n,
{
    proof {
        reveal_strlit(" ");
    }
    if n == 0 {
        String::new()
    } else {
        let mut r = String::from_str(" ");
        let rest = spaces_string(n - 1);
        r.append(rest.as_str());
        proof {
            assert(r@ =~= spaces(n as nat));
        }
        r
    }
}

fn pad_left_string(s: &str, w: usize) -> (r: String)
    ensures
        r@ == pad_left(s@, w as nat),
{
    let n = s.unicode_len();
    if n >= w {
        String::from_str(s)
    } else {
        let mut r = spaces_string(w - n);
        r.append(s);
        r
    }
}

/// Whether a field's carried type label marks it as a balance amount.
pub open spec fn is_balance_label(l: Option<Seq<char>>) -> bool {
    l == Some("T::Balance"@) || l == Some("BalanceOf<T>"@)
}

/// One verbose report line for a field: indented name, then the value,
/// with balance-labelled unsigned amounts rendered through the token
/// metadata.
pub open spec fn field_line(f: FieldModel, token: &TokenMetadata) -> Seq<char> {
    let rendered = if is_balance_label(f.type_label) && f.value is UInt {
        balance_str(f.value->UInt_0, token.decimals as nat, token.symbol@)
    } else {
        render_model(f.value)
    };
    spaces((KEY_COL_WIDTH - 3) as nat) + f.name + ": "@ + rendered + "\n"@
}

/// The verbose report lines of an event's fields, in order.
pub open spec fn fields_lines(fs: Seq<FieldModel>, token: &TokenMetadata) -> Seq<char>
    decreases fs,
{
    if fs.len() == 0 {
        Seq::empty()
    } else {
        field_line(fs[0], token) + fields_lines(fs.subrange(1, fs.len() as int), token)
    }
}

/// One event's report block: the header line and, in verbose mode, its
/// field lines.
pub open spec fn event_block(e: EventModel, verbose: bool, token: &TokenMetadata) -> Seq<char> {
    pad_left("Event"@, KEY_COL_WIDTH as nat) + " "@ + e.pallet + " -> "@ + e.name + "\n"@ + (
    if verbose {
        fields_lines(e.fields, token)
    } else {
        Seq::empty()
    })
}

/// The report blocks of a batch of events, in order.
pub open spec fn events_blocks(es: Seq<EventModel>, verbose: bool, token: &TokenMetadata) -> Seq<
    char,
>
    decreases es,
{
    if es.len() == 0 {
        Seq::empty()
    } else {
        event_block(es[0], verbose, token) + events_blocks(
            es.subrange(1, es.len() as int),
            verbose,
            token,
        )
    }
}

/// The whole report: the batch header, then each event's block.
pub open spec fn report(es: Seq<EventModel>, verbose: bool, token: &TokenMetadata) -> Seq<char> {
    pad_left("Events"@, KEY_COL_WIDTH as nat) + "\n"@ + events_blocks(es, verbose, token)
}

impl DisplayEvents {
    /// Displays events in a human readable format: a header, then one
    /// line per event, and in verbose mode one line per field.  The
    /// token's decimal count must leave `10^decimals` within 128 bits.
    #[verifier::rlimit(100)]
    #[verifier::loop_isolation(false)]
    pub fn display_events(&self, verbosity: &Verbosity, token: &TokenMetadata) -> (r: String)
        requires
            token.decimals <= 38,
        ensures
            r@ == report(self@, *verbosity is Verbose, token),
    {
        proof {
            reveal_strlit("\n");
            reveal_strlit(" ");
            reveal_strlit(" -> ");
            reveal_strlit(": ");
            crate::events::lemma_view_events_len(self.0@);
        }
        let verbose = verbosity.is_verbose();
        let ghost em = self@;
        let mut out = pad_left_string("Events", KEY_COL_WIDTH);
        out.append("\n");
        let mut j: usize = 0;
        proof {
            assert(em.subrange(0, em.len() as int) =~= em);
        }
        while j < self.0.len()
            invariant
                j <= self.0@.len(),
                em == crate::events::view_events(self.0@),
                em.len() == self.0@.len(),
                forall|i: int| 0 <= i < self.0@.len() ==> #[trigger] em[i] == self.0@[i]@,
                token.decimals <= 38,
                report(em, verbose, token) == out@ + events_blocks(
                    em.subrange(j as int, em.len() as int),
                    verbose,
                    token,
                ),
            decreases self.0@.len() - j,
        {
            let ghost sub = em.subrange(j as int, em.len() as int);
            proof {
                assert(sub[0] == em[j as int]);
                assert(sub.subrange(1, sub.len() as int) =~= em.subrange(
                    j as int + 1,
                    em.len() as int,
                ));
            }
            let ghost pre = out@;
            let ev = &self.0[j];
            let head = pad_left_string("Event", KEY_COL_WIDTH);
            out.append(head.as_str());
            out.append(" ");
            out.append(ev.pallet.as_str());
            out.append(" -> ");
            out.append(ev.name.as_str());
            out.append("\n");
            if verbose {
                proof {
                    crate::events::lemma_view_fields_len(ev.fields@);
                }
                let ghost fm = crate::events::view_fields(ev.fields@);
                let ghost mark = out@;
                let mut k: usize = 0;
                proof {
                    assert(fm.subrange(0, fm.len() as int) =~= fm);
                }
                while k < ev.fields.len()
                    invariant
                        k <= ev.fields@.len(),
                        fm == crate::events::view_fields(ev.fields@),
                        fm.len() == ev.fields@.len(),
                        forall|i: int|
                            0 <= i < ev.fields@.len() ==> #[trigger] fm[i] == ev.fields@[i]@,
                        token.decimals <= 38,
                        mark + fields_lines(fm, token) == out@ + fields_lines(
                            fm.subrange(k as int, fm.len() as int),
                            token,
                        ),
                    decreases ev.fields@.len() - k,
                {
                    let ghost fsub = fm.subrange(k as int, fm.len() as int);
                    let ghost fpre = out@;
                    proof {
                        assert(fsub[0] == fm[k as int]);
                        assert(fsub.subrange(1, fsub.len() as int) =~= fm.subrange(
                            k as int + 1,
                            fm.len() as int,
                        ));
                    }
                    let field = &ev.fields[k];
                    let is_balance = match &field.type_label {
                        Some(t) => str_eq(t.as_str(), "T::Balance") || str_eq(
                            t.as_str(),
                            "BalanceOf<T>",
                        ),
                        None => false,
                    };
                    let rendered: String = if is_balance {
                        match &field.value {
                            crate::value::Value::UInt(u) => format_balance(*u, token),
                            _ => render_value(&field.value),
                        }
                    } else {
                        render_value(&field.value)
                    };
                    let indent = spaces_string(KEY_COL_WIDTH - 3);
                    out.append(indent.as_str());
                    out.append(field.name.as_str());
                    out.append(": ");
                    out.append(rendered.as_str());
                    out.append("\n");
                    k = k + 1;
                    proof {
                        let fl = field_line(fsub[0], token);
                        let rest2 = fields_lines(fm.subrange(k as int, fm.len() as int), token);
                        assert(out@ =~= fpre + fl);
                        assert(fpre + (fl + rest2) =~= (fpre + fl) + rest2);
                    }
                }
                proof {
                    assert(fm.subrange(fm.len() as int, fm.len() as int).len() == 0);
                }
            }
            j = j + 1;
            proof {
                let blk = event_block(sub[0], verbose, token);
                let rest2 = events_blocks(em.subrange(j as int, em.len() as int), verbose, token);
                assert(out@ =~= pre + blk);
                assert(pre + (blk + rest2) =~= (pre + blk) + rest2);
            }
        }
        proof {
            assert(em.subrange(em.len() as int, em.len() as int).len() == 0);
        }
        out
    }
}

} // verus!
