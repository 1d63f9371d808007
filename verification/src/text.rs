//! Outgoing-message scrubbing: rewrites invite links and scam domains
//! so clients do not auto-link them, strips direction-override and
//! zero-width characters, and defuses @everyone / @here mentions.

use vstd::prelude::*;
use crate::scan::match_cs;

verus! {

/// `s` with every non-overlapping occurrence of `pat` (left to right)
/// replaced by `rep` — the behaviour of `str::replace`.
pub open spec fn replace_spec(s: Seq<char>, pat: Seq<char>, rep: Seq<char>) -> Seq<char>
    decreases s.len(),
    when pat.len() > 0
{
    if s.len() < pat.len() {
        s
    } else if s.subrange(0, pat.len() as int) == pat {
        rep + replace_spec(s.skip(pat.len() as int), pat, rep)
    } else {
        seq![s[0]] + replace_spec(s.drop_first(), pat, rep)
    }
}

/// Replaces every occurrence of `pat` in `s` by `rep`.
pub fn replace(s: &str, pat: &str, rep: &str) -> (r: String)
    requires
        pat@.len() > 0,
    ensures
        r@ == replace_spec(s@, pat@, rep@),
{
    let chars = crate::recognise::chars_of(s);
    let n = chars.len();
    let pl = pat.unicode_len();
    let mut out = String::new();
    let mut i: usize = 0;
    proof {
        assert(s@.skip(0) =~= s@);
        assert(out@ + replace_spec(s@, pat@, rep@) =~= replace_spec(s@, pat@, rep@));
    }
    while i < n
        invariant
            i <= n,
            n == s@.len(),
            chars@ == s@,
            pl == pat@.len(),
            pl > 0,
            out@ + replace_spec(s@.skip(i as int), pat@, rep@) == replace_spec(s@, pat@, rep@),
        decreases n - i,
    {
        let ghost suffix = s@.skip(i as int);
        let matched = if n - i >= pl {
            crate::scan::match_cs_exec(&chars, i, pat)
        } else {
            false
        };
        proof {
            if n - i >= pl {
                lemma_match_cs_is_subrange(s@, i as int, pat@);
                assert(suffix.subrange(0, pl as int) =~= s@.subrange(i as int, i as int + pl));
                assert(matched <==> suffix.subrange(0, pl as int) == pat@);
            }
        }
        if matched {
            out.append(rep);
            proof {
                assert(suffix.skip(pl as int) =~= s@.skip(i as int + pl));
                assert(replace_spec(suffix, pat@, rep@) == rep@ + replace_spec(
                    s@.skip(i as int + pl),
                    pat@,
                    rep@,
                ));
                assert(out@ + replace_spec(s@.skip(i as int + pl), pat@, rep@) =~= replace_spec(
                    s@,
                    pat@,
                    rep@,
                ));
            }
            i = i + pl;
        } else {
            out.append(s.substring_char(i, i + 1));
            proof {
                assert(suffix.drop_first() =~= s@.skip(i as int + 1));
                assert(suffix[0] == s@[i as int]);
                assert(s@.subrange(i as int, i as int + 1) =~= seq![s@[i as int]]);
                assert(replace_spec(suffix, pat@, rep@) == seq![s@[i as int]] + replace_spec(
                    s@.skip(i as int + 1),
                    pat@,
                    rep@,
                ));
                assert(out@ + replace_spec(s@.skip(i as int + 1), pat@, rep@) =~= replace_spec(
                    s@,
                    pat@,
                    rep@,
                ));
            }
            i = i + 1;
        }
    }
    proof {
        assert(s@.skip(n as int).len() == 0);
        assert(out@ =~= replace_spec(s@, pat@, rep@));
    }
    out
}

/// A case-sensitive match at `i` holds exactly when the pattern's
/// characters stand there.
proof fn lemma_match_cs_is_subrange(s: Seq<char>, i: int, kw: Seq<char>)
    requires
        0 <= i,
        i + kw.len() <= s.len(),
    ensures
        match_cs(s, i, kw) <==> s.subrange(i, i + kw.len() as int) == kw,
    decreases kw.len(),
{
    let l = kw.len() as int;
    if kw.len() == 0 {
        assert(s.subrange(i, i) =~= kw);
    } else {
        lemma_match_cs_is_subrange(s, i + 1, kw.drop_first());
        if match_cs(s, i, kw) {
            assert(s.subrange(i + 1, i + l) =~= s.subrange(i + 1, i + 1 + (l - 1)));
            assert(s.subrange(i, i + l) =~= kw) by {
                assert forall|k: int| 0 <= k < l implies s.subrange(i, i + l)[k] == kw[k] by {
                    if k > 0 {
                        assert(kw[k] == kw.drop_first()[k - 1]);
                        assert(s.subrange(i + 1, i + l)[k - 1] == s[i + k]);
                    }
                }
            }
        }
        if s.subrange(i, i + l) == kw {
            assert(s[i] == s.subrange(i, i + l)[0]);
            assert(s.subrange(i + 1, i + 1 + (l - 1)) =~= kw.drop_first()) by {
                assert forall|k: int|
                    0 <= k < l - 1 implies s.subrange(i + 1, i + l)[k] == kw.drop_first()[k] by {
                    assert(s.subrange(i, i + l)[k + 1] == kw[k + 1]);
                }
            }
            assert(match_cs(s, i + 1, kw.drop_first()));
        }
    }
}

/// Scrubs `text` for safe redisplay: invite links and well-known scam
/// domains get their dot replaced by a one-dot leader, right-to-left
/// overrides and zero-width characters become spaces, and @everyone
/// and @here gain a zero-width space so they do not ping.
pub fn normalize(text: &str) -> (r: String)
    ensures
        r@ == normalize_spec(text@),
{
    proof {
        lemma_pattern_lens();
    }
    let s1 = replace(text, "discord.gg", "discord\u{2024}gg");
    let s2 = replace(s1.as_str(), "discord.me", "discord\u{2024}me");
    let s3 = replace(s2.as_str(), "discordlist.net", "discordlist\u{2024}net");
    let s4 = replace(s3.as_str(), "discordservers.com", "discordservers\u{2024}com");
    let s5 = replace(s4.as_str(), "discordapp.com/invite", "discordapp\u{2024}com/invite");
    let s6 = replace(s5.as_str(), "\u{202E}", " ");
    let s7 = replace(s6.as_str(), "\u{200F}", " ");
    let s8 = replace(s7.as_str(), "\u{202B}", " ");
    let s9 = replace(s8.as_str(), "\u{200B}", " ");
    let s10 = replace(s9.as_str(), "\u{200D}", " ");
    let s11 = replace(s10.as_str(), "\u{200C}", " ");
    let s12 = replace(s11.as_str(), "@everyone", "@\u{200B}everyone");
    let s13 = replace(s12.as_str(), "@here", "@\u{200B}here");
    s13
}

/// `normalize` as one mathematical function: the replacements above,
/// applied in order.
pub open spec fn normalize_spec(s: Seq<char>) -> Seq<char> {
    let s1 = replace_spec(s, "discord.gg"@, "discord\u{2024}gg"@);
    let s2 = replace_spec(s1, "discord.me"@, "discord\u{2024}me"@);
    let s3 = replace_spec(s2, "discordlist.net"@, "discordlist\u{2024}net"@);
    let s4 = replace_spec(s3, "discordservers.com"@, "discordservers\u{2024}com"@);
    let s5 = replace_spec(s4, "discordapp.com/invite"@, "discordapp\u{2024}com/invite"@);
    let s6 = replace_spec(s5, "\u{202E}"@, " "@);
    let s7 = replace_spec(s6, "\u{200F}"@, " "@);
    let s8 = replace_spec(s7, "\u{202B}"@, " "@);
    let s9 = replace_spec(s8, "\u{200B}"@, " "@);
    let s10 = replace_spec(s9, "\u{200D}"@, " "@);
    let s11 = replace_spec(s10, "\u{200C}"@, " "@);
    let s12 = replace_spec(s11, "@everyone"@, "@\u{200B}everyone"@);
    replace_spec(s12, "@here"@, "@\u{200B}here"@)
}

/// The scrubbing patterns are all non-empty.
proof fn lemma_pattern_lens()
    ensures
        "discord.gg"@.len() == 10,
        "discord.me"@.len() == 10,
        "discordlist.net"@.len() == 15,
        "discordservers.com"@.len() == 18,
        "discordapp.com/invite"@.len() == 21,
        "\u{202E}"@.len() == 1,
        "\u{200F}"@.len() == 1,
        "\u{202B}"@.len() == 1,
        "\u{200B}"@.len() == 1,
        "\u{200D}"@.len() == 1,
        "\u{200C}"@.len() == 1,
        "@everyone"@.len() == 9,
        "@here"@.len() == 5,
{
    reveal_strlit("discord.gg");
    reveal_strlit("discord.me");
    reveal_strlit("discordlist.net");
    reveal_strlit("discordservers.com");
    reveal_strlit("discordapp.com/invite");
    reveal_strlit("\u{202E}");
    reveal_strlit("\u{200F}");
    reveal_strlit("\u{202B}");
    reveal_strlit("\u{200B}");
    reveal_strlit("\u{200D}");
    reveal_strlit("\u{200C}");
    reveal_strlit("@everyone");
    reveal_strlit("@here");
}

} // verus!
