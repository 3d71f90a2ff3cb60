//! Asset paths: a file, and after a `#` what of the file is asked for.
//!
//! `file` asks for the whole scene, `file#a/b/c` for the slice of the scene
//! at the name path `a/b/c`, and `file#model7` for the mesh of model 7
//! alone.
use vstd::prelude::*;
use vstd::string::*;

verus! {

/// What an asset path asks for.
#[derive(Clone, Debug, PartialEq, Eq)]
pub enum Target {
    /// The whole scene.
    Scene,
    /// The node with this name path and all below it.
    Slice(String),
    /// The mesh of the model with this number.
    Model(usize),
}

/// What an asset path asks for, names as sequences of characters.
pub enum TargetView {
    Scene,
    Slice(Seq<char>),
    Model(usize),
}

impl View for Target {
    type V = TargetView;

    open spec fn view(&self) -> TargetView {
        match self {
            Target::Scene => TargetView::Scene,
            Target::Slice(path) => TargetView::Slice(path@),
            Target::Model(number) => TargetView::Model(*number),
        }
    }
}

/// The place of the first `#` among the first `n` characters, or `n` when
/// there is none.
pub open spec fn hash_place(text: Seq<char>, n: nat) -> nat
    decreases n,
{
    if n == 0 {
        0
    } else {
        let before = hash_place(text, (n - 1) as nat);
        if before < n - 1 || text[n - 1] == '#' {
            before
        } else {
            n
        }
    }
}

/// The character is one of the ten digits.
pub open spec fn is_digit(c: char) -> bool {
    '0' <= c <= '9'
}

/// Every character is a digit.
pub open spec fn all_digits(text: Seq<char>) -> bool {
    forall|i: int| 0 <= i < text.len() ==> is_digit(#[trigger] text[i])
}

/// The number that a sequence of digits writes in base ten.
pub open spec fn decimal(digits: Seq<char>) -> nat
    decreases digits.len(),
{
    if digits.len() == 0 {
        0
    } else {
        decimal(digits.drop_last()) * 10 + (digits.last() as nat - '0' as nat) as nat
    }
}

/// What the part of an asset path after the `#` asks for: nothing asks
/// for the whole scene; `model` and a number that fits asks for that model;
/// anything else is the name path of a slice.
pub open spec fn label_target(label: Seq<char>) -> TargetView {
    let word = seq!['m', 'o', 'd', 'e', 'l'];
    if label.len() == 0 {
        TargetView::Scene
    } else if label.len() > 5 && label.subrange(0, 5) == word && all_digits(
        label.subrange(5, label.len() as int),
    ) && decimal(label.subrange(5, label.len() as int)) <= usize::MAX {
        TargetView::Model(decimal(label.subrange(5, label.len() as int)) as usize)
    } else {
        TargetView::Slice(label)
    }
}

/// What an asset path asks for: what its part after the first `#` asks
/// for, and the whole scene when it has no `#`.
pub open spec fn path_target(path: Seq<char>) -> TargetView {
    let at = hash_place(path, path.len());
    if at >= path.len() {
        TargetView::Scene
    } else {
        label_target(path.subrange(at as int + 1, path.len() as int))
    }
}

/// The part of an asset path before the first `#`: the file.
pub open spec fn path_file(path: Seq<char>) -> Seq<char> {
    path.subrange(0, hash_place(path, path.len()) as int)
}

/// A longer number is no smaller than the number that it starts with.
proof fn lemma_decimal_grows(digits: Seq<char>, n: int)
    requires
        0 <= n <= digits.len(),
        all_digits(digits),
    ensures
        decimal(digits.subrange(0, n)) <= decimal(digits),
    decreases digits.len() - n,
{
    if n < digits.len() {
        let longer = digits.subrange(0, digits.len() - 1);
        assert(longer == digits.drop_last());
        assert(all_digits(longer));
        lemma_decimal_grows(longer, n);
        assert(longer.subrange(0, n) =~= digits.subrange(0, n));
        assert(is_digit(digits[digits.len() - 1]));
    } else {
        assert(digits.subrange(0, n) =~= digits);
    }
}

/// Reads what the part of an asset path after the `#` asks for.
pub fn parse_label(label: &str) -> (target: Target)
    ensures
        target@ == label_target(label@),
{
    let len = label.unicode_len();
    if len == 0 {
        return Target::Scene;
    }
    proof {
        reveal_strlit("model");
    }
    let word = "model";
    let ghost digits = label@.subrange(5, len as int);
    if len > 5 {
        let mut same = true;
        let mut i: usize = 0;
        assert(label@.subrange(0, 0) =~= word@.subrange(0, 0));
        while i < 5
            invariant
                i <= 5,
                len == label@.len(),
                len > 5,
                word@ == seq!['m', 'o', 'd', 'e', 'l'],
                same == (label@.subrange(0, i as int) == word@.subrange(0, i as int)),
            decreases 5 - i,
        {
            let ghost before = same;
            same = same && label.get_char(i) == word.get_char(i);
            proof {
                let a = label@.subrange(0, i + 1);
                let b = word@.subrange(0, i + 1);
                assert(a.drop_last() =~= label@.subrange(0, i as int));
                assert(b.drop_last() =~= word@.subrange(0, i as int));
                assert(a.last() == label@[i as int] && b.last() == word@[i as int]);
                if before && label@[i as int] == word@[i as int] {
                    assert(a =~= b);
                }
            }
            i += 1;
        }
        assert(word@.subrange(0, 5) =~= word@);
        if same {
            let mut number: usize = 0;
            let mut k: usize = 5;
            let mut fits = true;
            assert(digits.subrange(0, 0) =~= Seq::<char>::empty());
            while k < len && fits
                invariant
                    5 <= k <= len,
                    len == label@.len(),
                    digits == label@.subrange(5, len as int),
                    all_digits(digits.subrange(0, k - 5)),
                    fits ==> number == decimal(digits.subrange(0, k - 5)),
                    !fits ==> !(all_digits(digits) && decimal(digits) <= usize::MAX),
                decreases len - k + if fits { 1nat } else { 0nat },
            {
                let c = label.get_char(k);
                let ghost upto = digits.subrange(0, k + 1 - 5);
                proof {
                    assert(upto.drop_last() =~= digits.subrange(0, k - 5));
                    assert(upto.last() == c);
                }
                if c < '0' || c > '9' {
                    assert(!is_digit(digits[k - 5]));
                    fits = false;
                } else {
                    assert(all_digits(upto)) by {
                        assert forall|i: int| 0 <= i < upto.len() implies is_digit(
                            #[trigger] upto[i],
                        ) by {
                            if i < k - 5 {
                                assert(upto[i] == digits.subrange(0, k - 5)[i]);
                            }
                        }
                    }
                    let digit = (c as u32 - '0' as u32) as usize;
                    if number > (usize::MAX - digit) / 10 {
                        proof {
                            if all_digits(digits) {
                                lemma_decimal_grows(digits, k + 1 - 5);
                            }
                        }
                        fits = false;
                    } else {
                        number = number * 10 + digit;
                        k += 1;
                    }
                }
            }
            if fits {
                assert(digits.subrange(0, k - 5) =~= digits);
                return Target::Model(number);
            }
        }
    }
    Target::Slice(String::from_str(label))
}

/// Splits an asset path at its first `#` into the file and what is asked
/// of it.
pub fn parse_asset_path(path: &str) -> (parts: (String, Target))
    ensures
        parts.0@ == path_file(path@),
        parts.1@ == path_target(path@),
{
    let len = path.unicode_len();
    let mut at: usize = 0;
    while at < len && path.get_char(at) != '#'
        invariant
            at <= len,
            len == path@.len(),
            at == hash_place(path@, at as nat),
        decreases len - at,
    {
        at += 1;
    }
    proof {
        lemma_hash_place_stays(path@, at as nat, len as nat);
    }
    if at >= len {
        assert(path@.subrange(0, len as int) =~= path@);
        return (String::from_str(path), Target::Scene);
    }
    let file = path.substring_char(0, at);
    let label = path.substring_char(at + 1, len);
    (String::from_str(file), parse_label(label))
}

/// Once a `#` is found, or the end is reached, the place of the first `#`
/// does not change as more characters are looked at.
proof fn lemma_hash_place_stays(text: Seq<char>, at: nat, n: nat)
    requires
        at <= n <= text.len(),
        hash_place(text, at) == at,
        at < text.len() ==> text[at as int] == '#',
    ensures
        hash_place(text, n) == at,
    decreases n,
{
    if at < n {
        lemma_hash_place_stays(text, at, (n - 1) as nat);
    }
}

} // verus!
