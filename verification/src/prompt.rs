//! The challenge-selection prompt and its callback data. The prompt shows
//! one button row per remaining challenge plus one row with the two terminal
//! options; each button carries callback data that routes the judge's choice
//! back: the submitter, the submission and the chosen outcome, joined by a
//! fixed separator.

use vstd::prelude::*;
use vstd::string::StrSliceExecFns;
use vstd::string::StringExecFns;

use crate::model::Challenge;

verus! {

/// One button of the judging prompt: what the judge reads, and the callback
/// data the choice sends back.
#[derive(Debug)]
pub struct PromptButton {
    pub label: String,
    pub data: String,
}

/// The callback data a prompt button carries: submitter, submission and
/// choice, joined by the fixed separator.
pub open spec fn callback_data(
    associate: Seq<char>,
    reference: Seq<char>,
    choice: Seq<char>,
) -> Seq<char> {
    associate + "###"@ + reference + "###"@ + choice
}

/// The separator starts at this position.
pub open spec fn sep_at(s: Seq<char>, i: int) -> bool {
    0 <= i && i + 3 <= s.len() && s[i] == '#' && s[i + 1] == '#' && s[i + 2] == '#'
}

/// The separator occurs somewhere in the text.
pub open spec fn contains_sep(s: Seq<char>) -> bool {
    exists|i: int| sep_at(s, i)
}

/// The text holds no '#' at all — true of the decimal identifiers the prompt
/// encodes.
pub open spec fn no_hash(s: Seq<char>) -> bool {
    forall|i: int| 0 <= i < s.len() ==> s[i] != '#'
}

/// Build the callback data for one button.
pub fn encode_callback_data(associate: &String, reference: &String, choice: &String) -> (r: String)
    ensures
        r@ == callback_data(associate@, reference@, choice@),
{
    let mut s = associate.clone();
    s.append("###");
    s.append(reference.as_str());
    s.append("###");
    s.append(choice.as_str());
    proof {
        assert(s@ =~= callback_data(associate@, reference@, choice@));
    }
    s
}

/// The prompt rows for a submission: one row per remaining challenge,
/// labelled with its short name, then one row with the two terminal options.
/// Every button carries the same submitter and submission references.
pub fn make_keyboard(associate: String, reference: String, challenges: Vec<Challenge>) -> (r: Vec<
    Vec<PromptButton>,
>)
    ensures
        r@.len() == challenges@.len() + 1,
        forall|i: int|
            0 <= i < challenges@.len() ==> {
                let row = (#[trigger] r@[i])@;
                &&& row.len() == 1
                &&& row[0].label == challenges@[i].short_name
                &&& row[0].data@ == callback_data(
                    associate@,
                    reference@,
                    challenges@[i].name@,
                )
            },
        ({
            let last = r@.last()@;
            &&& last.len() == 2
            &&& last[0].label@ == "\u{26a0}\u{fe0f} Unclear"@
            &&& last[0].data@ == callback_data(associate@, reference@, "___unclear"@)
            &&& last[1].label@ == "\u{274c} Invalid"@
            &&& last[1].data@ == callback_data(associate@, reference@, "___invalid"@)
        }),
{
    let mut keyboard: Vec<Vec<PromptButton>> = Vec::new();
    let n = challenges.len();
    for i in 0..n
        invariant
            n == challenges@.len(),
            keyboard@.len() == i,
            forall|k: int|
                0 <= k < i ==> {
                    let row = (#[trigger] keyboard@[k])@;
                    &&& row.len() == 1
                    &&& row[0].label == challenges@[k].short_name
                    &&& row[0].data@ == callback_data(
                        associate@,
                        reference@,
                        challenges@[k].name@,
                    )
                },
    {
        let data = encode_callback_data(&associate, &reference, &challenges[i].name);
        let button = PromptButton { label: challenges[i].short_name.clone(), data };
        let mut row: Vec<PromptButton> = Vec::new();
        row.push(button);
        keyboard.push(row);
    }
    let unclear_name = String::from_str("___unclear");
    let invalid_name = String::from_str("___invalid");
    let unclear = PromptButton {
        label: String::from_str("\u{26a0}\u{fe0f} Unclear"),
        data: encode_callback_data(&associate, &reference, &unclear_name),
    };
    let invalid = PromptButton {
        label: String::from_str("\u{274c} Invalid"),
        data: encode_callback_data(&associate, &reference, &invalid_name),
    };
    let mut last: Vec<PromptButton> = Vec::new();
    last.push(unclear);
    last.push(invalid);
    keyboard.push(last);
    keyboard
}

/// Find where the separator first occurs.
fn find_sep(s: &str) -> (r: Option<usize>)
    ensures
        match r {
            Some(i) => sep_at(s@, i as int) && forall|k: int| 0 <= k < i ==> !sep_at(s@, k),
            None => !contains_sep(s@),
        },
{
    let n = s.unicode_len();
    if n < 3 {
        return None;
    }
    let end = n - 2;
    for i in 0..end
        invariant
            n == s@.len(),
            n >= 3,
            end == n - 2,
            forall|k: int| 0 <= k < i ==> !sep_at(s@, k),
    {
        if s.get_char(i) == '#' && s.get_char(i + 1) == '#' && s.get_char(i + 2) == '#' {
            return Some(i);
        }
    }
    assert forall|k: int| true implies !sep_at(s@, k) by {
        if 0 <= k < end {
            assert(!sep_at(s@, k));
        }
    }
    None
}

/// Where the text splits as a hash-free prefix, the separator and a tail,
/// the leftmost separator stands exactly at the prefix's end, and what
/// follows the separator is exactly the tail.
proof fn lemma_leftmost_sep_bounds(data: Seq<char>, x: Seq<char>, tail: Seq<char>, i: int)
    requires
        data == x + "###"@ + tail,
        no_hash(x),
        sep_at(data, i),
        forall|k: int| 0 <= k < i ==> !sep_at(data, k),
    ensures
        i == x.len(),
        data.subrange(i + 3, data.len() as int) == tail,
{
    reveal_strlit("###");
    assert("###"@ =~= seq!['#', '#', '#']);
    let xl = x.len() as int;
    assert(sep_at(data, xl)) by {
        assert(data[xl] == '#');
        assert(data[xl + 1] == '#');
        assert(data[xl + 2] == '#');
    }
    assert(i <= xl);
    if i < xl {
        assert(data[i] == x[i]);
        assert(false);
    }
    assert(data.subrange(i + 3, data.len() as int) =~= tail);
}

/// Split callback data back into submitter, submission and choice. The split
/// takes the leftmost separator twice. It answers exactly where that leaves
/// three separator-free parts — in particular it always succeeds on data the
/// prompt's own buttons carry, whose first two parts hold no '#' at all.
pub fn parse_callback_data(data: &str) -> (r: Option<(String, String, String)>)
    ensures
        r matches Some((a, b, c)) ==> {
            &&& data@ == callback_data(a@, b@, c@)
            &&& !contains_sep(a@)
            &&& !contains_sep(b@)
            &&& !contains_sep(c@)
            &&& forall|k: int| 0 <= k < a@.len() ==> !(#[trigger] sep_at(data@, k))
            &&& forall|k: int| 0 <= k < b@.len() ==> !(#[trigger] sep_at(data@, a@.len() + 3 + k))
        },
        !contains_sep(data@) ==> r is None,
        forall|x: Seq<char>, y: Seq<char>, z: Seq<char>|
            #![trigger callback_data(x, y, z)]
            data@ == callback_data(x, y, z) && no_hash(x) && no_hash(y) && !contains_sep(z)
                ==> r is Some,
{
    let first = match find_sep(data) {
        None => {
            proof {
                assert forall|x: Seq<char>, y: Seq<char>, z: Seq<char>|
                    #![trigger callback_data(x, y, z)]
                    data@ == callback_data(x, y, z) && no_hash(x) && no_hash(y) && !contains_sep(
                        z,
                    ) implies false by {
                    reveal_strlit("###");
                    assert("###"@ =~= seq!['#', '#', '#']);
                    let xl = x.len() as int;
                    assert(data@[xl] == '#' && data@[xl + 1] == '#' && data@[xl + 2] == '#');
                    assert(sep_at(data@, xl));
                }
            }
            return None;
        },
        Some(i) => i,
    };
    let n = data.unicode_len();
    let a = data.substring_char(0, first);
    let rest = data.substring_char(first + 3, n);
    let second = match find_sep(rest) {
        None => {
            proof {
                assert forall|x: Seq<char>, y: Seq<char>, z: Seq<char>|
                    #![trigger callback_data(x, y, z)]
                    data@ == callback_data(x, y, z) && no_hash(x) && no_hash(y) && !contains_sep(
                        z,
                    ) implies false by {
                    reveal_strlit("###");
                    assert("###"@ =~= seq!['#', '#', '#']);
                    assert(data@ =~= x + "###"@ + (y + "###"@ + z));
                    lemma_leftmost_sep_bounds(data@, x, y + "###"@ + z, first as int);
                    assert(rest@ =~= data@.subrange(first + 3, data@.len() as int));
                    assert(rest@ == y + "###"@ + z);
                    let yl = y.len() as int;
                    assert(rest@[yl] == '#' && rest@[yl + 1] == '#' && rest@[yl + 2] == '#');
                    assert(sep_at(rest@, yl));
                }
            }
            return None;
        },
        Some(j) => j,
    };
    let b = rest.substring_char(0, second);
    let c = rest.substring_char(second + 3, rest.unicode_len());
    let trailing = find_sep(c);
    if trailing.is_some() {
        proof {
            assert(contains_sep(c@));
            assert forall|x: Seq<char>, y: Seq<char>, z: Seq<char>|
                #![trigger callback_data(x, y, z)]
                data@ == callback_data(x, y, z) && no_hash(x) && no_hash(y) && !contains_sep(
                    z,
                ) implies false by {
                reveal_strlit("###");
                assert("###"@ =~= seq!['#', '#', '#']);
                assert(data@ =~= x + "###"@ + (y + "###"@ + z));
                lemma_leftmost_sep_bounds(data@, x, y + "###"@ + z, first as int);
                assert(rest@ =~= data@.subrange(first + 3, data@.len() as int));
                assert(rest@ == y + "###"@ + z);
                lemma_leftmost_sep_bounds(rest@, y, z, second as int);
                assert(c@ =~= rest@.subrange(second + 3, rest@.len() as int));
                assert(c@ == z);
            }
        }
        return None;
    }
    proof {
        reveal_strlit("###");
        assert("###"@ =~= seq!['#', '#', '#']);
        assert(sep_at(data@, first as int));
        assert(sep_at(rest@, second as int));
        assert(data@ =~= callback_data(
            data@.subrange(0, first as int),
            rest@.subrange(0, second as int),
            rest@.subrange(second + 3, rest@.len() as int),
        ));
        assert forall|k: int| 0 <= k < a@.len() implies !(#[trigger] sep_at(data@, k)) by {}
        assert forall|k: int|
            0 <= k < b@.len() implies !(#[trigger] sep_at(data@, a@.len() + 3 + k)) by {
            assert(!sep_at(rest@, k));
            assert(rest@ =~= data@.subrange(first + 3, data@.len() as int));
        }
        assert forall|k: int| true implies !sep_at(a@, k) by {
            if 0 <= k && k + 3 <= a@.len() {
                assert(a@[k] == data@[k] && a@[k + 1] == data@[k + 1] && a@[k + 2] == data@[k
                    + 2]);
                assert(!sep_at(data@, k));
            }
        }
        assert forall|k: int| true implies !sep_at(b@, k) by {
            if 0 <= k && k + 3 <= b@.len() {
                assert(b@[k] == rest@[k] && b@[k + 1] == rest@[k + 1] && b@[k + 2] == rest@[k
                    + 2]);
                assert(!sep_at(rest@, k));
            }
        }
    }
    Some((a.to_owned(), b.to_owned(), c.to_owned()))
}

/// The callback data decomposes uniquely: where the encoded submitter and
/// submission references hold no '#' (decimal identifiers never do) and the
/// choice holds no separator, any separator-free, leftmost-split reading of
/// the same data — the one `parse_callback_data` returns — recovers exactly
/// the encoded parts.
pub proof fn lemma_callback_data_unique(
    x: Seq<char>,
    y: Seq<char>,
    z: Seq<char>,
    x2: Seq<char>,
    y2: Seq<char>,
    z2: Seq<char>,
)
    requires
        callback_data(x, y, z) == callback_data(x2, y2, z2),
        no_hash(x),
        no_hash(y),
        !contains_sep(z),
        forall|k: int| 0 <= k < x2.len() ==> !(#[trigger] sep_at(callback_data(x, y, z), k)),
        forall|k: int|
            0 <= k < y2.len() ==> !(#[trigger] sep_at(callback_data(x, y, z), x2.len() + 3 + k)),
    ensures
        x2 == x,
        y2 == y,
        z2 == z,
{
    let s = callback_data(x, y, z);
    reveal_strlit("###");
    let xl = x.len() as int;
    let yl = y.len() as int;
    let zl = z.len() as int;
    let xl2 = x2.len() as int;
    let yl2 = y2.len() as int;
    assert(s.len() == xl + yl + zl + 6);
    assert(s.len() == xl2 + yl2 + z2.len() + 6);
    assert(sep_at(s, xl)) by {
        assert(s[xl] == '#');
        assert(s[xl + 1] == '#');
        assert(s[xl + 2] == '#');
    }
    // the first component's length is pinned by the leftmost separator
    assert(xl2 <= xl);
    if xl2 < xl {
        let s2 = callback_data(x2, y2, z2);
        assert(s2[xl2] == '#');
        assert(s[xl2] == x[xl2]);
        assert(false);
    }
    assert(x2 =~= x) by {
        assert forall|i: int| 0 <= i < xl implies x2[i] == x[i] by {
            assert(callback_data(x2, y2, z2)[i] == x2[i]);
            assert(s[i] == x[i]);
        }
    }
    assert(sep_at(s, xl + 3 + yl)) by {
        assert(s[xl + 3 + yl] == '#');
        assert(s[xl + 3 + yl + 1] == '#');
        assert(s[xl + 3 + yl + 2] == '#');
    }
    assert(yl2 <= yl);
    if yl2 < yl {
        let s2 = callback_data(x2, y2, z2);
        assert(s2[xl2 + 3 + yl2] == '#');
        assert(s[xl + 3 + yl2] == y[yl2]);
        assert(false);
    }
    assert(y2 =~= y) by {
        assert forall|i: int| 0 <= i < yl implies y2[i] == y[i] by {
            assert(callback_data(x2, y2, z2)[xl2 + 3 + i] == y2[i]);
            assert(s[xl + 3 + i] == y[i]);
        }
    }
    assert(z2 =~= z) by {
        assert forall|i: int| 0 <= i < zl implies z2[i] == z[i] by {
            assert(callback_data(x2, y2, z2)[xl2 + 3 + yl2 + 3 + i] == z2[i]);
            assert(s[xl + 3 + yl + 3 + i] == z[i]);
        }
    }
}

} // verus!
