//! The width/quality presets that the compressed-image endpoint accepts.

use vstd::prelude::*;
use crate::text::{
    all_ascii_digits, char_vecs, split_chars, split_on, string_from_chars, to_chars, trim,
    trim_str,
};

verus! {

/// Error for a width and quality that are not a preset together.
pub const INVALID_COMBINATION: &'static str = "Invalid width/quality combination. Check IMAGE_PRESETS environment variable or use defaults: 1200px/80, 2400px/80, 2400px/100, 3600px/100";

/// Error for a width that no preset has.
pub const INVALID_WIDTH: &'static str = "Invalid width. Check IMAGE_PRESETS environment variable or use defaults: 1200, 2400, 3600. Note: 2400 has both quality 80 and 100 presets.";

/// Error for a quality given without a width.
pub const QUALITY_WITHOUT_WIDTH: &'static str = "Quality must be specified with a width";

/// Error when there is no preset at all.
pub const NO_PRESETS: &'static str = "No valid presets configured";

/// The query parameters of a compressed-image request.
#[derive(Debug, Clone, Copy, PartialEq, Eq)]
pub struct ImageParams {
    pub quality: Option<u8>,
    pub width: Option<u32>,
}

/// The value of a non-empty run of ASCII digits.
pub open spec fn digits_value(d: Seq<char>) -> nat
    decreases d.len(),
{
    if d.len() == 0 {
        0
    } else {
        digits_value(d.drop_last()) * 10 + ((d.last() as int) - ('0' as int)) as nat
    }
}

/// What `str::parse` gives for an unsigned integer type whose largest value is
/// `max`: an optional `+`, then one or more ASCII digits, with a value no larger
/// than `max`.
pub open spec fn parse_unsigned(s: Seq<char>, max: nat) -> Option<nat> {
    let digits = if s.len() > 0 && s[0] == '+' {
        s.drop_first()
    } else {
        s
    };
    if digits.len() > 0 && all_ascii_digits(digits) && digits_value(digits) <= max {
        Some(digits_value(digits))
    } else {
        None
    }
}

/// One `width,quality` entry of a preset list; each half is trimmed before it
/// is parsed.
pub open spec fn parse_preset(piece: Seq<char>) -> Option<(u32, u8)> {
    let parts = split_on(piece, ',');
    if parts.len() == 2 {
        match (parse_unsigned(trim(parts[0]), 0xffff_ffff), parse_unsigned(trim(parts[1]), 0xff)) {
            (Some(w), Some(q)) => Some((w as u32, q as u8)),
            _ => None,
        }
    } else {
        None
    }
}

/// The entries of `pieces` that parse, in order.
pub open spec fn collect_presets(pieces: Seq<Seq<char>>) -> Seq<(u32, u8)>
    decreases pieces.len(),
{
    if pieces.len() == 0 {
        Seq::empty()
    } else {
        collect_presets(pieces.drop_last()) + match parse_preset(pieces.last()) {
            Some(p) => seq![p],
            None => Seq::empty(),
        }
    }
}

/// The presets a `;`-separated list such as `1200,80;2400,90` names; entries
/// that do not parse are skipped.
pub open spec fn parse_presets(s: Seq<char>) -> Seq<(u32, u8)> {
    collect_presets(split_on(s, ';'))
}

/// The presets used when no list overrides them.
pub open spec fn default_presets() -> Seq<(u32, u8)> {
    seq![(1200u32, 80u8), (2400u32, 80u8), (2400u32, 100u8), (3600u32, 100u8)]
}

/// The presets in force: those of the override list when it names at least
/// one, the defaults otherwise.
pub open spec fn valid_presets(env: Option<Seq<char>>) -> Seq<(u32, u8)> {
    match env {
        Some(s) => if parse_presets(s).len() > 0 {
            parse_presets(s)
        } else {
            default_presets()
        },
        None => default_presets(),
    }
}

/// The first preset with width `w`.
pub open spec fn first_with_width(presets: Seq<(u32, u8)>, w: u32) -> Option<(u32, u8)>
    decreases presets.len(),
{
    if presets.len() == 0 {
        None
    } else if presets[0].0 == w {
        Some(presets[0])
    } else {
        first_with_width(presets.drop_first(), w)
    }
}

/// What a request with `params` resolves to under `presets`.
pub open spec fn resolve(params: ImageParams, presets: Seq<(u32, u8)>) -> Result<
    (u32, u8),
    &'static str,
> {
    match (params.width, params.quality) {
        (Some(w), Some(q)) => if presets.contains((w, q)) {
            Ok((w, q))
        } else {
            Err(INVALID_COMBINATION)
        },
        (Some(w), None) => match first_with_width(presets, w) {
            Some(p) => Ok(p),
            None => Err(INVALID_WIDTH),
        },
        (None, Some(_)) => Err(QUALITY_WITHOUT_WIDTH),
        (None, None) => if presets.len() > 0 {
            Ok(presets[0])
        } else {
            Err(NO_PRESETS)
        },
    }
}

proof fn lemma_digits_value_prefix(d: Seq<char>, i: int)
    requires
        0 <= i <= d.len(),
    ensures
        digits_value(d.take(i)) <= digits_value(d),
    decreases d.len() - i,
{
    if i < d.len() {
        lemma_digits_value_prefix(d, i + 1);
        assert(d.take(i + 1).drop_last() =~= d.take(i));
        assert('0' as int <= d[i] as int || true);
        lemma_digits_value_step(d.take(i + 1));
    } else {
        assert(d.take(i) =~= d);
    }
}

proof fn lemma_digits_value_step(d: Seq<char>)
    requires
        d.len() > 0,
    ensures
        digits_value(d.drop_last()) <= digits_value(d),
{
}

/// The value of an unsigned decimal string (`str::parse` for an integer type
/// whose largest value is `max`).
pub fn parse_unsigned_str(s: &str, max: u64) -> (r: Option<u64>)
    ensures
        r matches Some(n) ==> parse_unsigned(s@, max as nat) == Some(n as nat),
        r is None ==> parse_unsigned(s@, max as nat) is None,
{
    let v = to_chars(s);
    let start: usize = if v.len() > 0 && v[0] == '+' {
        1
    } else {
        0
    };
    let ghost digits = if s@.len() > 0 && s@[0] == '+' {
        s@.drop_first()
    } else {
        s@
    };
    assert(digits =~= s@.skip(start as int));
    if start >= v.len() {
        return None;
    }
    let mut acc: u64 = 0;
    let mut i: usize = start;
    while i < v.len()
        invariant
            v@ == s@,
            start <= i <= v@.len(),
            digits == s@.skip(start as int),
            digits == (if s@.len() > 0 && s@[0] == '+' {
                s@.drop_first()
            } else {
                s@
            }),
            all_ascii_digits(digits.take(i - start)),
            acc as nat == digits_value(digits.take(i - start)),
            acc <= max,
        decreases v@.len() - i,
    {
        let c = v[i];
        assert(c == digits[i - start]);
        if !('0' <= c && c <= '9') {
            assert(!('0' <= digits[i - start] && digits[i - start] <= '9'));
            assert(!all_ascii_digits(digits));
            assert(parse_unsigned(s@, max as nat) is None);
            return None;
        }
        let d = (c as u64) - ('0' as u64);
        assert(digits.take(i - start + 1).drop_last() =~= digits.take(i - start));
        assert(digits_value(digits.take(i - start + 1)) == digits_value(digits.take(i - start))
            * 10 + d);
        if d > max || acc > (max - d) / 10 {
            proof {
                lemma_digits_value_prefix(digits, i - start + 1);
                if d <= max {
                    assert(acc * 10 + d > max) by (nonlinear_arith)
                        requires
                            acc > (max - d) / 10,
                            d <= max,
                    ;
                }
            }
            assert(digits_value(digits) > max);
            assert(parse_unsigned(s@, max as nat) is None);
            return None;
        }
        assert(acc * 10 + d <= max) by (nonlinear_arith)
            requires
                acc <= (max - d) / 10,
                d <= 9,
        ;
        acc = acc * 10 + d;
        i = i + 1;
        assert forall|k: int| 0 <= k < i - start implies '0' <= #[trigger] digits.take(
            i - start,
        )[k] && digits.take(i - start)[k] <= '9' by {
            if k < i - start - 1 {
                assert(digits.take(i - start)[k] == digits.take(i - start - 1)[k]);
            }
        }
    }
    assert(digits.take(v@.len() - start) =~= digits);
    Some(acc)
}


fn parse_preset_chars(piece: &Vec<char>) -> (r: Option<(u32, u8)>)
    ensures
        r == parse_preset(piece@),
{
    let parts = split_chars(piece, ',');
    if parts.len() != 2 {
        return None;
    }
    let first = string_from_chars(&parts[0], 0, parts[0].len());
    let second = string_from_chars(&parts[1], 0, parts[1].len());
    proof {
        assert(char_vecs(parts@)[0] == parts@[0]@);
        assert(char_vecs(parts@)[1] == parts@[1]@);
        assert(first@ =~= parts@[0]@);
        assert(second@ =~= parts@[1]@);
    }
    let w = parse_unsigned_str(trim_str(first.as_str()), 0xffff_ffff);
    let q = parse_unsigned_str(trim_str(second.as_str()), 0xff);
    match (w, q) {
        (Some(w), Some(q)) => Some((w as u32, q as u8)),
        _ => None,
    }
}

impl ImageParams {
    /// The presets in force, given the override list (the `IMAGE_PRESETS`
    /// setting, such as `1200,80;2400,100`) when there is one.
    pub fn get_valid_presets(env: Option<&str>) -> (r: Vec<(u32, u8)>)
        ensures
            r@ == valid_presets(
                match env {
                    Some(s) => Some(s@),
                    None => None,
                },
            ),
    {
        if let Some(s) = env {
            let chars = to_chars(s);
            let pieces = split_chars(&chars, ';');
            let mut presets: Vec<(u32, u8)> = Vec::new();
            let mut i: usize = 0;
            while i < pieces.len()
                invariant
                    char_vecs(pieces@) == split_on(s@, ';'),
                    i <= pieces@.len(),
                    presets@ == collect_presets(char_vecs(pieces@).take(i as int)),
                decreases pieces@.len() - i,
            {
                let ghost before = char_vecs(pieces@).take(i as int);
                assert(char_vecs(pieces@).take(i + 1).drop_last() =~= before);
                assert(char_vecs(pieces@)[i as int] == pieces@[i as int]@);
                match parse_preset_chars(&pieces[i]) {
                    Some(p) => {
                        presets.push(p);
                    },
                    None => {},
                }
                i = i + 1;
                assert(presets@ =~= collect_presets(char_vecs(pieces@).take(i as int)));
            }
            assert(char_vecs(pieces@).take(pieces@.len() as int) =~= char_vecs(pieces@));
            if presets.len() > 0 {
                return presets;
            }
        }
        let mut d: Vec<(u32, u8)> = Vec::new();
        d.push((1200, 80));
        d.push((2400, 80));
        d.push((2400, 100));
        d.push((3600, 100));
        assert(d@ =~= default_presets());
        d
    }
}

impl ImageParams {
    /// The preset a request resolves to: a width and quality must together be a
    /// preset; a width alone takes the first preset of that width; a quality
    /// alone is refused; no parameter takes the first preset.
    pub fn validate(&self, presets: &Vec<(u32, u8)>) -> (r: Result<(u32, u8), &'static str>)
        ensures
            r == resolve(*self, presets@),
            r matches Ok(p) ==> presets@.contains(p),
    {
        match (self.width, self.quality) {
            (Some(w), Some(q)) => {
                let mut i: usize = 0;
                while i < presets.len()
                    invariant
                        i <= presets@.len(),
                        forall|k: int| 0 <= k < i ==> presets@[k] != (w, q),
                        self.width == Some(w),
                        self.quality == Some(q),
                    decreases presets@.len() - i,
                {
                    if presets[i].0 == w && presets[i].1 == q {
                        assert(presets@[i as int] == (w, q));
                        assert(presets@.contains((w, q)));
                        return Ok((w, q));
                    }
                    i = i + 1;
                }
                assert(!presets@.contains((w, q)));
                Err(INVALID_COMBINATION)
            },
            (Some(w), None) => {
                let mut i: usize = 0;
                assert(presets@.skip(0) =~= presets@);
                while i < presets.len()
                    invariant
                        i <= presets@.len(),
                        self.width == Some(w),
                        self.quality is None,
                        first_with_width(presets@, w) == first_with_width(
                            presets@.skip(i as int),
                            w,
                        ),
                    decreases presets@.len() - i,
                {
                    assert(presets@.skip(i as int).drop_first() =~= presets@.skip(i + 1));
                    if presets[i].0 == w {
                        assert(presets@.skip(i as int)[0] == presets@[i as int]);
                        proof {
                            lemma_first_with_width_in(presets@, w);
                        }
                        return Ok(presets[i]);
                    }
                    i = i + 1;
                }
                proof {
                    lemma_first_with_width_in(presets@, w);
                }
                Err(INVALID_WIDTH)
            },
            (None, Some(_)) => Err(QUALITY_WITHOUT_WIDTH),
            (None, None) => {
                if presets.len() > 0 {
                    Ok(presets[0])
                } else {
                    Err(NO_PRESETS)
                }
            },
        }
    }
}

/// The first preset of a width is one of the presets, and has that width.
pub proof fn lemma_first_with_width_in(presets: Seq<(u32, u8)>, w: u32)
    ensures
        first_with_width(presets, w) matches Some(p) ==> presets.contains(p) && p.0 == w,
    decreases presets.len(),
{
    if presets.len() > 0 && presets[0].0 != w {
        lemma_first_with_width_in(presets.drop_first(), w);
        if let Some(p) = first_with_width(presets, w) {
            let k = choose|k: int| 0 <= k < presets.drop_first().len() && presets.drop_first()[k] == p;
            assert(presets[k + 1] == p);
        }
    } else if presets.len() > 0 {
        assert(presets[0] == presets[0]);
    }
}


/// The preset that photo pages ask for: 2400px at quality 80 when that is a
/// preset, else the first 2400px preset, else 2400px at quality 80 anyway.
pub open spec fn default_params_of(presets: Seq<(u32, u8)>) -> (u32, u8) {
    if presets.contains((2400u32, 80u8)) {
        (2400u32, 80u8)
    } else {
        match first_with_width(presets, 2400) {
            Some(p) => p,
            None => (2400u32, 80u8),
        }
    }
}

/// The width and quality of the image URLs on photo pages.
pub fn get_default_image_params(presets: &Vec<(u32, u8)>) -> (r: (u32, u8))
    ensures
        r == default_params_of(presets@),
{
    let exact = ImageParams { width: Some(2400), quality: Some(80) };
    match exact.validate(presets) {
        Ok(p) => p,
        Err(_) => {
            let by_width = ImageParams { width: Some(2400), quality: None };
            match by_width.validate(presets) {
                Ok(p) => p,
                Err(_) => (2400, 80),
            }
        },
    }
}


/// The presets in force are never empty, so a request that names no width
/// and no quality always resolves, to the first preset.
pub proof fn lemma_presets_never_empty(env: Option<Seq<char>>)
    ensures
        valid_presets(env).len() > 0,
        resolve(ImageParams { quality: None, width: None }, valid_presets(env)) == Ok::<
            (u32, u8),
            &'static str,
        >(valid_presets(env)[0]),
{
}

} // verus!
