//! The names of the character references of HTML.

use vstd::prelude::*;
use vstd::string::*;
use crate::text::range_is;

verus! {

/// Whether the text is one of the names from `AElig` to `Bernoullis`.
pub open spec fn named_0(text: Seq<u8>) -> bool {
    ||| text == "AElig".spec_bytes()
    ||| text == "AMP".spec_bytes()
    ||| text == "Aacute".spec_bytes()
    ||| text == "Abreve".spec_bytes()
    ||| text == "Acirc".spec_bytes()
    ||| text == "Acy".spec_bytes()
    ||| text == "Afr".spec_bytes()
    ||| text == "Agrave".spec_bytes()
    ||| text == "Alpha".spec_bytes()
    ||| text == "Amacr".spec_bytes()
    ||| text == "And".spec_bytes()
    ||| text == "Aogon".spec_bytes()
    ||| text == "Aopf".spec_bytes()
    ||| text == "ApplyFunction".spec_bytes()
    ||| text == "Aring".spec_bytes()
    ||| text == "Ascr".spec_bytes()
    ||| text == "Assign".spec_bytes()
    ||| text == "Atilde".spec_bytes()
    ||| text == "Auml".spec_bytes()
    ||| text == "Backslash".spec_bytes()
    ||| text == "Barv".spec_bytes()
    ||| text == "Barwed".spec_bytes()
    ||| text == "Bcy".spec_bytes()
    ||| text == "Because".spec_bytes()
    ||| text == "Bernoullis".spec_bytes()
}

/// Whether the bytes `start..end` are one of the names from `AElig` to
/// `Bernoullis`.
fn is_named_0(bytes: &[u8], start: usize, end: usize) -> (is: bool)
    requires
        start <= end <= bytes.len(),
    ensures
        is == named_0(bytes@.subrange(start as int, end as int)),
{
    range_is(bytes, start, end, "AElig".as_bytes())
        || range_is(bytes, start, end, "AMP".as_bytes())
        || range_is(bytes, start, end, "Aacute".as_bytes())
        || range_is(bytes, start, end, "Abreve".as_bytes())
        || range_is(bytes, start, end, "Acirc".as_bytes())
        || range_is(bytes, start, end, "Acy".as_bytes())
        || range_is(bytes, start, end, "Afr".as_bytes())
        || range_is(bytes, start, end, "Agrave".as_bytes())
        || range_is(bytes, start, end, "Alpha".as_bytes())
        || range_is(bytes, start, end, "Amacr".as_bytes())
        || range_is(bytes, start, end, "And".as_bytes())
        || range_is(bytes, start, end, "Aogon".as_bytes())
        || range_is(bytes, start, end, "Aopf".as_bytes())
        || range_is(bytes, start, end, "ApplyFunction".as_bytes())
        || range_is(bytes, start, end, "Aring".as_bytes())
        || range_is(bytes, start, end, "Ascr".as_bytes())
        || range_is(bytes, start, end, "Assign".as_bytes())
        || range_is(bytes, start, end, "Atilde".as_bytes())
        || range_is(bytes, start, end, "Auml".as_bytes())
        || range_is(bytes, start, end, "Backslash".as_bytes())
        || range_is(bytes, start, end, "Barv".as_bytes())
        || range_is(bytes, start, end, "Barwed".as_bytes())
        || range_is(bytes, start, end, "Bcy".as_bytes())
        || range_is(bytes, start, end, "Because".as_bytes())
        || range_is(bytes, start, end, "Bernoullis".as_bytes())
}

/// Whether the text is one of the names from `Beta` to `CircleTimes`.
pub open spec fn named_1(text: Seq<u8>) -> bool {
    ||| text == "Beta".spec_bytes()
    ||| text == "Bfr".spec_bytes()
    ||| text == "Bopf".spec_bytes()
    ||| text == "Breve".spec_bytes()
    ||| text == "Bscr".spec_bytes()
    ||| text == "Bumpeq".spec_bytes()
    ||| text == "CHcy".spec_bytes()
    ||| text == "COPY".spec_bytes()
    ||| text == "Cacute".spec_bytes()
    ||| text == "Cap".spec_bytes()
    ||| text == "CapitalDifferentialD".spec_bytes()
    ||| text == "Cayleys".spec_bytes()
    ||| text == "Ccaron".spec_bytes()
    ||| text == "Ccedil".spec_bytes()
    ||| text == "Ccirc".spec_bytes()
    ||| text == "Cconint".spec_bytes()
    ||| text == "Cdot".spec_bytes()
    ||| text == "Cedilla".spec_bytes()
    ||| text == "CenterDot".spec_bytes()
    ||| text == "Cfr".spec_bytes()
    ||| text == "Chi".spec_bytes()
    ||| text == "CircleDot".spec_bytes()
    ||| text == "CircleMinus".spec_bytes()
    ||| text == "CirclePlus".spec_bytes()
    ||| text == "CircleTimes".spec_bytes()
}

/// Whether the bytes `start..end` are one of the names from `Beta` to
/// `CircleTimes`.
fn is_named_1(bytes: &[u8], start: usize, end: usize) -> (is: bool)
    requires
        start <= end <= bytes.len(),
    ensures
        is == named_1(bytes@.subrange(start as int, end as int)),
{
    range_is(bytes, start, end, "Beta".as_bytes())
        || range_is(bytes, start, end, "Bfr".as_bytes())
        || range_is(bytes, start, end, "Bopf".as_bytes())
        || range_is(bytes, start, end, "Breve".as_bytes())
        || range_is(bytes, start, end, "Bscr".as_bytes())
        || range_is(bytes, start, end, "Bumpeq".as_bytes())
        || range_is(bytes, start, end, "CHcy".as_bytes())
        || range_is(bytes, start, end, "COPY".as_bytes())
        || range_is(bytes, start, end, "Cacute".as_bytes())
        || range_is(bytes, start, end, "Cap".as_bytes())
        || range_is(bytes, start, end, "CapitalDifferentialD".as_bytes())
        || range_is(bytes, start, end, "Cayleys".as_bytes())
        || range_is(bytes, start, end, "Ccaron".as_bytes())
        || range_is(bytes, start, end, "Ccedil".as_bytes())
        || range_is(bytes, start, end, "Ccirc".as_bytes())
        || range_is(bytes, start, end, "Cconint".as_bytes())
        || range_is(bytes, start, end, "Cdot".as_bytes())
        || range_is(bytes, start, end, "Cedilla".as_bytes())
        || range_is(bytes, start, end, "CenterDot".as_bytes())
        || range_is(bytes, start, end, "Cfr".as_bytes())
        || range_is(bytes, start, end, "Chi".as_bytes())
        || range_is(bytes, start, end, "CircleDot".as_bytes())
        || range_is(bytes, start, end, "CircleMinus".as_bytes())
        || range_is(bytes, start, end, "CirclePlus".as_bytes())
        || range_is(bytes, start, end, "CircleTimes".as_bytes())
}

/// Whether the text is one of the names from `ClockwiseContourIntegral` to `Dcy`.
pub open spec fn named_2(text: Seq<u8>) -> bool {
    ||| text == "ClockwiseContourIntegral".spec_bytes()
    ||| text == "CloseCurlyDoubleQuote".spec_bytes()
    ||| text == "CloseCurlyQuote".spec_bytes()
    ||| text == "Colon".spec_bytes()
    ||| text == "Colone".spec_bytes()
    ||| text == "Congruent".spec_bytes()
    ||| text == "Conint".spec_bytes()
    ||| text == "ContourIntegral".spec_bytes()
    ||| text == "Copf".spec_bytes()
    ||| text == "Coproduct".spec_bytes()
    ||| text == "CounterClockwiseContourIntegral".spec_bytes()
    ||| text == "Cross".spec_bytes()
    ||| text == "Cscr".spec_bytes()
    ||| text == "Cup".spec_bytes()
    ||| text == "CupCap".spec_bytes()
    ||| text == "DD".spec_bytes()
    ||| text == "DDotrahd".spec_bytes()
    ||| text == "DJcy".spec_bytes()
    ||| text == "DScy".spec_bytes()
    ||| text == "DZcy".spec_bytes()
    ||| text == "Dagger".spec_bytes()
    ||| text == "Darr".spec_bytes()
    ||| text == "Dashv".spec_bytes()
    ||| text == "Dcaron".spec_bytes()
    ||| text == "Dcy".spec_bytes()
}

/// Whether the bytes `start..end` are one of the names from `ClockwiseContourIntegral` to
/// `Dcy`.
fn is_named_2(bytes: &[u8], start: usize, end: usize) -> (is: bool)
    requires
        start <= end <= bytes.len(),
    ensures
        is == named_2(bytes@.subrange(start as int, end as int)),
{
    range_is(bytes, start, end, "ClockwiseContourIntegral".as_bytes())
        || range_is(bytes, start, end, "CloseCurlyDoubleQuote".as_bytes())
        || range_is(bytes, start, end, "CloseCurlyQuote".as_bytes())
        || range_is(bytes, start, end, "Colon".as_bytes())
        || range_is(bytes, start, end, "Colone".as_bytes())
        || range_is(bytes, start, end, "Congruent".as_bytes())
        || range_is(bytes, start, end, "Conint".as_bytes())
        || range_is(bytes, start, end, "ContourIntegral".as_bytes())
        || range_is(bytes, start, end, "Copf".as_bytes())
        || range_is(bytes, start, end, "Coproduct".as_bytes())
        || range_is(bytes, start, end, "CounterClockwiseContourIntegral".as_bytes())
        || range_is(bytes, start, end, "Cross".as_bytes())
        || range_is(bytes, start, end, "Cscr".as_bytes())
        || range_is(bytes, start, end, "Cup".as_bytes())
        || range_is(bytes, start, end, "CupCap".as_bytes())
        || range_is(bytes, start, end, "DD".as_bytes())
        || range_is(bytes, start, end, "DDotrahd".as_bytes())
        || range_is(bytes, start, end, "DJcy".as_bytes())
        || range_is(bytes, start, end, "DScy".as_bytes())
        || range_is(bytes, start, end, "DZcy".as_bytes())
        || range_is(bytes, start, end, "Dagger".as_bytes())
        || range_is(bytes, start, end, "Darr".as_bytes())
        || range_is(bytes, start, end, "Dashv".as_bytes())
        || range_is(bytes, start, end, "Dcaron".as_bytes())
        || range_is(bytes, start, end, "Dcy".as_bytes())
}

/// Whether the text is one of the names from `Del` to `DoubleRightTee`.
pub open spec fn named_3(text: Seq<u8>) -> bool {
    ||| text == "Del".spec_bytes()
    ||| text == "Delta".spec_bytes()
    ||| text == "Dfr".spec_bytes()
    ||| text == "DiacriticalAcute".spec_bytes()
    ||| text == "DiacriticalDot".spec_bytes()
    ||| text == "DiacriticalDoubleAcute".spec_bytes()
    ||| text == "DiacriticalGrave".spec_bytes()
    ||| text == "DiacriticalTilde".spec_bytes()
    ||| text == "Diamond".spec_bytes()
    ||| text == "DifferentialD".spec_bytes()
    ||| text == "Dopf".spec_bytes()
    ||| text == "Dot".spec_bytes()
    ||| text == "DotDot".spec_bytes()
    ||| text == "DotEqual".spec_bytes()
    ||| text == "DoubleContourIntegral".spec_bytes()
    ||| text == "DoubleDot".spec_bytes()
    ||| text == "DoubleDownArrow".spec_bytes()
    ||| text == "DoubleLeftArrow".spec_bytes()
    ||| text == "DoubleLeftRightArrow".spec_bytes()
    ||| text == "DoubleLeftTee".spec_bytes()
    ||| text == "DoubleLongLeftArrow".spec_bytes()
    ||| text == "DoubleLongLeftRightArrow".spec_bytes()
    ||| text == "DoubleLongRightArrow".spec_bytes()
    ||| text == "DoubleRightArrow".spec_bytes()
    ||| text == "DoubleRightTee".spec_bytes()
}

/// Whether the bytes `start..end` are one of the names from `Del` to
/// `DoubleRightTee`.
fn is_named_3(bytes: &[u8], start: usize, end: usize) -> (is: bool)
    requires
        start <= end <= bytes.len(),
    ensures
        is == named_3(bytes@.subrange(start as int, end as int)),
{
    range_is(bytes, start, end, "Del".as_bytes())
        || range_is(bytes, start, end, "Delta".as_bytes())
        || range_is(bytes, start, end, "Dfr".as_bytes())
        || range_is(bytes, start, end, "DiacriticalAcute".as_bytes())
        || range_is(bytes, start, end, "DiacriticalDot".as_bytes())
        || range_is(bytes, start, end, "DiacriticalDoubleAcute".as_bytes())
        || range_is(bytes, start, end, "DiacriticalGrave".as_bytes())
        || range_is(bytes, start, end, "DiacriticalTilde".as_bytes())
        || range_is(bytes, start, end, "Diamond".as_bytes())
        || range_is(bytes, start, end, "DifferentialD".as_bytes())
        || range_is(bytes, start, end, "Dopf".as_bytes())
        || range_is(bytes, start, end, "Dot".as_bytes())
        || range_is(bytes, start, end, "DotDot".as_bytes())
        || range_is(bytes, start, end, "DotEqual".as_bytes())
        || range_is(bytes, start, end, "DoubleContourIntegral".as_bytes())
        || range_is(bytes, start, end, "DoubleDot".as_bytes())
        || range_is(bytes, start, end, "DoubleDownArrow".as_bytes())
        || range_is(bytes, start, end, "DoubleLeftArrow".as_bytes())
        || range_is(bytes, start, end, "DoubleLeftRightArrow".as_bytes())
        || range_is(bytes, start, end, "DoubleLeftTee".as_bytes())
        || range_is(bytes, start, end, "DoubleLongLeftArrow".as_bytes())
        || range_is(bytes, start, end, "DoubleLongLeftRightArrow".as_bytes())
        || range_is(bytes, start, end, "DoubleLongRightArrow".as_bytes())
        || range_is(bytes, start, end, "DoubleRightArrow".as_bytes())
        || range_is(bytes, start, end, "DoubleRightTee".as_bytes())
}

/// Whether the text is one of the names from `DoubleUpArrow` to `Ecy`.
pub open spec fn named_4(text: Seq<u8>) -> bool {
    ||| text == "DoubleUpArrow".spec_bytes()
    ||| text == "DoubleUpDownArrow".spec_bytes()
    ||| text == "DoubleVerticalBar".spec_bytes()
    ||| text == "DownArrow".spec_bytes()
    ||| text == "DownArrowBar".spec_bytes()
    ||| text == "DownArrowUpArrow".spec_bytes()
    ||| text == "DownBreve".spec_bytes()
    ||| text == "DownLeftRightVector".spec_bytes()
    ||| text == "DownLeftTeeVector".spec_bytes()
    ||| text == "DownLeftVector".spec_bytes()
    ||| text == "DownLeftVectorBar".spec_bytes()
    ||| text == "DownRightTeeVector".spec_bytes()
    ||| text == "DownRightVector".spec_bytes()
    ||| text == "DownRightVectorBar".spec_bytes()
    ||| text == "DownTee".spec_bytes()
    ||| text == "DownTeeArrow".spec_bytes()
    ||| text == "Downarrow".spec_bytes()
    ||| text == "Dscr".spec_bytes()
    ||| text == "Dstrok".spec_bytes()
    ||| text == "ENG".spec_bytes()
    ||| text == "ETH".spec_bytes()
    ||| text == "Eacute".spec_bytes()
    ||| text == "Ecaron".spec_bytes()
    ||| text == "Ecirc".spec_bytes()
    ||| text == "Ecy".spec_bytes()
}

/// Whether the bytes `start..end` are one of the names from `DoubleUpArrow` to
/// `Ecy`.
fn is_named_4(bytes: &[u8], start: usize, end: usize) -> (is: bool)
    requires
        start <= end <= bytes.len(),
    ensures
        is == named_4(bytes@.subrange(start as int, end as int)),
{
    range_is(bytes, start, end, "DoubleUpArrow".as_bytes())
        || range_is(bytes, start, end, "DoubleUpDownArrow".as_bytes())
        || range_is(bytes, start, end, "DoubleVerticalBar".as_bytes())
        || range_is(bytes, start, end, "DownArrow".as_bytes())
        || range_is(bytes, start, end, "DownArrowBar".as_bytes())
        || range_is(bytes, start, end, "DownArrowUpArrow".as_bytes())
        || range_is(bytes, start, end, "DownBreve".as_bytes())
        || range_is(bytes, start, end, "DownLeftRightVector".as_bytes())
        || range_is(bytes, start, end, "DownLeftTeeVector".as_bytes())
        || range_is(bytes, start, end, "DownLeftVector".as_bytes())
        || range_is(bytes, start, end, "DownLeftVectorBar".as_bytes())
        || range_is(bytes, start, end, "DownRightTeeVector".as_bytes())
        || range_is(bytes, start, end, "DownRightVector".as_bytes())
        || range_is(bytes, start, end, "DownRightVectorBar".as_bytes())
        || range_is(bytes, start, end, "DownTee".as_bytes())
        || range_is(bytes, start, end, "DownTeeArrow".as_bytes())
        || range_is(bytes, start, end, "Downarrow".as_bytes())
        || range_is(bytes, start, end, "Dscr".as_bytes())
        || range_is(bytes, start, end, "Dstrok".as_bytes())
        || range_is(bytes, start, end, "ENG".as_bytes())
        || range_is(bytes, start, end, "ETH".as_bytes())
        || range_is(bytes, start, end, "Eacute".as_bytes())
        || range_is(bytes, start, end, "Ecaron".as_bytes())
        || range_is(bytes, start, end, "Ecirc".as_bytes())
        || range_is(bytes, start, end, "Ecy".as_bytes())
}

/// Whether the text is one of the names from `Edot` to `ForAll`.
pub open spec fn named_5(text: Seq<u8>) -> bool {
    ||| text == "Edot".spec_bytes()
    ||| text == "Efr".spec_bytes()
    ||| text == "Egrave".spec_bytes()
    ||| text == "Element".spec_bytes()
    ||| text == "Emacr".spec_bytes()
    ||| text == "EmptySmallSquare".spec_bytes()
    ||| text == "EmptyVerySmallSquare".spec_bytes()
    ||| text == "Eogon".spec_bytes()
    ||| text == "Eopf".spec_bytes()
    ||| text == "Epsilon".spec_bytes()
    ||| text == "Equal".spec_bytes()
    ||| text == "EqualTilde".spec_bytes()
    ||| text == "Equilibrium".spec_bytes()
    ||| text == "Escr".spec_bytes()
    ||| text == "Esim".spec_bytes()
    ||| text == "Eta".spec_bytes()
    ||| text == "Euml".spec_bytes()
    ||| text == "Exists".spec_bytes()
    ||| text == "ExponentialE".spec_bytes()
    ||| text == "Fcy".spec_bytes()
    ||| text == "Ffr".spec_bytes()
    ||| text == "FilledSmallSquare".spec_bytes()
    ||| text == "FilledVerySmallSquare".spec_bytes()
    ||| text == "Fopf".spec_bytes()
    ||| text == "ForAll".spec_bytes()
}

/// Whether the bytes `start..end` are one of the names from `Edot` to
/// `ForAll`.
fn is_named_5(bytes: &[u8], start: usize, end: usize) -> (is: bool)
    requires
        start <= end <= bytes.len(),
    ensures
        is == named_5(bytes@.subrange(start as int, end as int)),
{
    range_is(bytes, start, end, "Edot".as_bytes())
        || range_is(bytes, start, end, "Efr".as_bytes())
        || range_is(bytes, start, end, "Egrave".as_bytes())
        || range_is(bytes, start, end, "Element".as_bytes())
        || range_is(bytes, start, end, "Emacr".as_bytes())
        || range_is(bytes, start, end, "EmptySmallSquare".as_bytes())
        || range_is(bytes, start, end, "EmptyVerySmallSquare".as_bytes())
        || range_is(bytes, start, end, "Eogon".as_bytes())
        || range_is(bytes, start, end, "Eopf".as_bytes())
        || range_is(bytes, start, end, "Epsilon".as_bytes())
        || range_is(bytes, start, end, "Equal".as_bytes())
        || range_is(bytes, start, end, "EqualTilde".as_bytes())
        || range_is(bytes, start, end, "Equilibrium".as_bytes())
        || range_is(bytes, start, end, "Escr".as_bytes())
        || range_is(bytes, start, end, "Esim".as_bytes())
        || range_is(bytes, start, end, "Eta".as_bytes())
        || range_is(bytes, start, end, "Euml".as_bytes())
        || range_is(bytes, start, end, "Exists".as_bytes())
        || range_is(bytes, start, end, "ExponentialE".as_bytes())
        || range_is(bytes, start, end, "Fcy".as_bytes())
        || range_is(bytes, start, end, "Ffr".as_bytes())
        || range_is(bytes, start, end, "FilledSmallSquare".as_bytes())
        || range_is(bytes, start, end, "FilledVerySmallSquare".as_bytes())
        || range_is(bytes, start, end, "Fopf".as_bytes())
        || range_is(bytes, start, end, "ForAll".as_bytes())
}

/// Whether the text is one of the names from `Fouriertrf` to `Hacek`.
pub open spec fn named_6(text: Seq<u8>) -> bool {
    ||| text == "Fouriertrf".spec_bytes()
    ||| text == "Fscr".spec_bytes()
    ||| text == "GJcy".spec_bytes()
    ||| text == "GT".spec_bytes()
    ||| text == "Gamma".spec_bytes()
    ||| text == "Gammad".spec_bytes()
    ||| text == "Gbreve".spec_bytes()
    ||| text == "Gcedil".spec_bytes()
    ||| text == "Gcirc".spec_bytes()
    ||| text == "Gcy".spec_bytes()
    ||| text == "Gdot".spec_bytes()
    ||| text == "Gfr".spec_bytes()
    ||| text == "Gg".spec_bytes()
    ||| text == "Gopf".spec_bytes()
    ||| text == "GreaterEqual".spec_bytes()
    ||| text == "GreaterEqualLess".spec_bytes()
    ||| text == "GreaterFullEqual".spec_bytes()
    ||| text == "GreaterGreater".spec_bytes()
    ||| text == "GreaterLess".spec_bytes()
    ||| text == "GreaterSlantEqual".spec_bytes()
    ||| text == "GreaterTilde".spec_bytes()
    ||| text == "Gscr".spec_bytes()
    ||| text == "Gt".spec_bytes()
    ||| text == "HARDcy".spec_bytes()
    ||| text == "Hacek".spec_bytes()
}

/// Whether the bytes `start..end` are one of the names from `Fouriertrf` to
/// `Hacek`.
fn is_named_6(bytes: &[u8], start: usize, end: usize) -> (is: bool)
    requires
        start <= end <= bytes.len(),
    ensures
        is == named_6(bytes@.subrange(start as int, end as int)),
{
    range_is(bytes, start, end, "Fouriertrf".as_bytes())
        || range_is(bytes, start, end, "Fscr".as_bytes())
        || range_is(bytes, start, end, "GJcy".as_bytes())
        || range_is(bytes, start, end, "GT".as_bytes())
        || range_is(bytes, start, end, "Gamma".as_bytes())
        || range_is(bytes, start, end, "Gammad".as_bytes())
        || range_is(bytes, start, end, "Gbreve".as_bytes())
        || range_is(bytes, start, end, "Gcedil".as_bytes())
        || range_is(bytes, start, end, "Gcirc".as_bytes())
        || range_is(bytes, start, end, "Gcy".as_bytes())
        || range_is(bytes, start, end, "Gdot".as_bytes())
        || range_is(bytes, start, end, "Gfr".as_bytes())
        || range_is(bytes, start, end, "Gg".as_bytes())
        || range_is(bytes, start, end, "Gopf".as_bytes())
        || range_is(bytes, start, end, "GreaterEqual".as_bytes())
        || range_is(bytes, start, end, "GreaterEqualLess".as_bytes())
        || range_is(bytes, start, end, "GreaterFullEqual".as_bytes())
        || range_is(bytes, start, end, "GreaterGreater".as_bytes())
        || range_is(bytes, start, end, "GreaterLess".as_bytes())
        || range_is(bytes, start, end, "GreaterSlantEqual".as_bytes())
        || range_is(bytes, start, end, "GreaterTilde".as_bytes())
        || range_is(bytes, start, end, "Gscr".as_bytes())
        || range_is(bytes, start, end, "Gt".as_bytes())
        || range_is(bytes, start, end, "HARDcy".as_bytes())
        || range_is(bytes, start, end, "Hacek".as_bytes())
}

/// Whether the text is one of the names from `Hat` to `Integral`.
pub open spec fn named_7(text: Seq<u8>) -> bool {
    ||| text == "Hat".spec_bytes()
    ||| text == "Hcirc".spec_bytes()
    ||| text == "Hfr".spec_bytes()
    ||| text == "HilbertSpace".spec_bytes()
    ||| text == "Hopf".spec_bytes()
    ||| text == "HorizontalLine".spec_bytes()
    ||| text == "Hscr".spec_bytes()
    ||| text == "Hstrok".spec_bytes()
    ||| text == "HumpDownHump".spec_bytes()
    ||| text == "HumpEqual".spec_bytes()
    ||| text == "IEcy".spec_bytes()
    ||| text == "IJlig".spec_bytes()
    ||| text == "IOcy".spec_bytes()
    ||| text == "Iacute".spec_bytes()
    ||| text == "Icirc".spec_bytes()
    ||| text == "Icy".spec_bytes()
    ||| text == "Idot".spec_bytes()
    ||| text == "Ifr".spec_bytes()
    ||| text == "Igrave".spec_bytes()
    ||| text == "Im".spec_bytes()
    ||| text == "Imacr".spec_bytes()
    ||| text == "ImaginaryI".spec_bytes()
    ||| text == "Implies".spec_bytes()
    ||| text == "Int".spec_bytes()
    ||| text == "Integral".spec_bytes()
}

/// Whether the bytes `start..end` are one of the names from `Hat` to
/// `Integral`.
fn is_named_7(bytes: &[u8], start: usize, end: usize) -> (is: bool)
    requires
        start <= end <= bytes.len(),
    ensures
        is == named_7(bytes@.subrange(start as int, end as int)),
{
    range_is(bytes, start, end, "Hat".as_bytes())
        || range_is(bytes, start, end, "Hcirc".as_bytes())
        || range_is(bytes, start, end, "Hfr".as_bytes())
        || range_is(bytes, start, end, "HilbertSpace".as_bytes())
        || range_is(bytes, start, end, "Hopf".as_bytes())
        || range_is(bytes, start, end, "HorizontalLine".as_bytes())
        || range_is(bytes, start, end, "Hscr".as_bytes())
        || range_is(bytes, start, end, "Hstrok".as_bytes())
        || range_is(bytes, start, end, "HumpDownHump".as_bytes())
        || range_is(bytes, start, end, "HumpEqual".as_bytes())
        || range_is(bytes, start, end, "IEcy".as_bytes())
        || range_is(bytes, start, end, "IJlig".as_bytes())
        || range_is(bytes, start, end, "IOcy".as_bytes())
        || range_is(bytes, start, end, "Iacute".as_bytes())
        || range_is(bytes, start, end, "Icirc".as_bytes())
        || range_is(bytes, start, end, "Icy".as_bytes())
        || range_is(bytes, start, end, "Idot".as_bytes())
        || range_is(bytes, start, end, "Ifr".as_bytes())
        || range_is(bytes, start, end, "Igrave".as_bytes())
        || range_is(bytes, start, end, "Im".as_bytes())
        || range_is(bytes, start, end, "Imacr".as_bytes())
        || range_is(bytes, start, end, "ImaginaryI".as_bytes())
        || range_is(bytes, start, end, "Implies".as_bytes())
        || range_is(bytes, start, end, "Int".as_bytes())
        || range_is(bytes, start, end, "Integral".as_bytes())
}

/// Whether the text is one of the names from `Intersection` to `Kscr`.
pub open spec fn named_8(text: Seq<u8>) -> bool {
    ||| text == "Intersection".spec_bytes()
    ||| text == "InvisibleComma".spec_bytes()
    ||| text == "InvisibleTimes".spec_bytes()
    ||| text == "Iogon".spec_bytes()
    ||| text == "Iopf".spec_bytes()
    ||| text == "Iota".spec_bytes()
    ||| text == "Iscr".spec_bytes()
    ||| text == "Itilde".spec_bytes()
    ||| text == "Iukcy".spec_bytes()
    ||| text == "Iuml".spec_bytes()
    ||| text == "Jcirc".spec_bytes()
    ||| text == "Jcy".spec_bytes()
    ||| text == "Jfr".spec_bytes()
    ||| text == "Jopf".spec_bytes()
    ||| text == "Jscr".spec_bytes()
    ||| text == "Jsercy".spec_bytes()
    ||| text == "Jukcy".spec_bytes()
    ||| text == "KHcy".spec_bytes()
    ||| text == "KJcy".spec_bytes()
    ||| text == "Kappa".spec_bytes()
    ||| text == "Kcedil".spec_bytes()
    ||| text == "Kcy".spec_bytes()
    ||| text == "Kfr".spec_bytes()
    ||| text == "Kopf".spec_bytes()
    ||| text == "Kscr".spec_bytes()
}

/// Whether the bytes `start..end` are one of the names from `Intersection` to
/// `Kscr`.
fn is_named_8(bytes: &[u8], start: usize, end: usize) -> (is: bool)
    requires
        start <= end <= bytes.len(),
    ensures
        is == named_8(bytes@.subrange(start as int, end as int)),
{
    range_is(bytes, start, end, "Intersection".as_bytes())
        || range_is(bytes, start, end, "InvisibleComma".as_bytes())
        || range_is(bytes, start, end, "InvisibleTimes".as_bytes())
        || range_is(bytes, start, end, "Iogon".as_bytes())
        || range_is(bytes, start, end, "Iopf".as_bytes())
        || range_is(bytes, start, end, "Iota".as_bytes())
        || range_is(bytes, start, end, "Iscr".as_bytes())
        || range_is(bytes, start, end, "Itilde".as_bytes())
        || range_is(bytes, start, end, "Iukcy".as_bytes())
        || range_is(bytes, start, end, "Iuml".as_bytes())
        || range_is(bytes, start, end, "Jcirc".as_bytes())
        || range_is(bytes, start, end, "Jcy".as_bytes())
        || range_is(bytes, start, end, "Jfr".as_bytes())
        || range_is(bytes, start, end, "Jopf".as_bytes())
        || range_is(bytes, start, end, "Jscr".as_bytes())
        || range_is(bytes, start, end, "Jsercy".as_bytes())
        || range_is(bytes, start, end, "Jukcy".as_bytes())
        || range_is(bytes, start, end, "KHcy".as_bytes())
        || range_is(bytes, start, end, "KJcy".as_bytes())
        || range_is(bytes, start, end, "Kappa".as_bytes())
        || range_is(bytes, start, end, "Kcedil".as_bytes())
        || range_is(bytes, start, end, "Kcy".as_bytes())
        || range_is(bytes, start, end, "Kfr".as_bytes())
        || range_is(bytes, start, end, "Kopf".as_bytes())
        || range_is(bytes, start, end, "Kscr".as_bytes())
}

/// Whether the text is one of the names from `LJcy` to `LeftTeeVector`.
pub open spec fn named_9(text: Seq<u8>) -> bool {
    ||| text == "LJcy".spec_bytes()
    ||| text == "LT".spec_bytes()
    ||| text == "Lacute".spec_bytes()
    ||| text == "Lambda".spec_bytes()
    ||| text == "Lang".spec_bytes()
    ||| text == "Laplacetrf".spec_bytes()
    ||| text == "Larr".spec_bytes()
    ||| text == "Lcaron".spec_bytes()
    ||| text == "Lcedil".spec_bytes()
    ||| text == "Lcy".spec_bytes()
    ||| text == "LeftAngleBracket".spec_bytes()
    ||| text == "LeftArrow".spec_bytes()
    ||| text == "LeftArrowBar".spec_bytes()
    ||| text == "LeftArrowRightArrow".spec_bytes()
    ||| text == "LeftCeiling".spec_bytes()
    ||| text == "LeftDoubleBracket".spec_bytes()
    ||| text == "LeftDownTeeVector".spec_bytes()
    ||| text == "LeftDownVector".spec_bytes()
    ||| text == "LeftDownVectorBar".spec_bytes()
    ||| text == "LeftFloor".spec_bytes()
    ||| text == "LeftRightArrow".spec_bytes()
    ||| text == "LeftRightVector".spec_bytes()
    ||| text == "LeftTee".spec_bytes()
    ||| text == "LeftTeeArrow".spec_bytes()
    ||| text == "LeftTeeVector".spec_bytes()
}

/// Whether the bytes `start..end` are one of the names from `LJcy` to
/// `LeftTeeVector`.
fn is_named_9(bytes: &[u8], start: usize, end: usize) -> (is: bool)
    requires
        start <= end <= bytes.len(),
    ensures
        is == named_9(bytes@.subrange(start as int, end as int)),
{
    range_is(bytes, start, end, "LJcy".as_bytes())
        || range_is(bytes, start, end, "LT".as_bytes())
        || range_is(bytes, start, end, "Lacute".as_bytes())
        || range_is(bytes, start, end, "Lambda".as_bytes())
        || range_is(bytes, start, end, "Lang".as_bytes())
        || range_is(bytes, start, end, "Laplacetrf".as_bytes())
        || range_is(bytes, start, end, "Larr".as_bytes())
        || range_is(bytes, start, end, "Lcaron".as_bytes())
        || range_is(bytes, start, end, "Lcedil".as_bytes())
        || range_is(bytes, start, end, "Lcy".as_bytes())
        || range_is(bytes, start, end, "LeftAngleBracket".as_bytes())
        || range_is(bytes, start, end, "LeftArrow".as_bytes())
        || range_is(bytes, start, end, "LeftArrowBar".as_bytes())
        || range_is(bytes, start, end, "LeftArrowRightArrow".as_bytes())
        || range_is(bytes, start, end, "LeftCeiling".as_bytes())
        || range_is(bytes, start, end, "LeftDoubleBracket".as_bytes())
        || range_is(bytes, start, end, "LeftDownTeeVector".as_bytes())
        || range_is(bytes, start, end, "LeftDownVector".as_bytes())
        || range_is(bytes, start, end, "LeftDownVectorBar".as_bytes())
        || range_is(bytes, start, end, "LeftFloor".as_bytes())
        || range_is(bytes, start, end, "LeftRightArrow".as_bytes())
        || range_is(bytes, start, end, "LeftRightVector".as_bytes())
        || range_is(bytes, start, end, "LeftTee".as_bytes())
        || range_is(bytes, start, end, "LeftTeeArrow".as_bytes())
        || range_is(bytes, start, end, "LeftTeeVector".as_bytes())
}

/// Whether the text is one of the names from `LeftTriangle` to `Longleftarrow`.
pub open spec fn named_10(text: Seq<u8>) -> bool {
    ||| text == "LeftTriangle".spec_bytes()
    ||| text == "LeftTriangleBar".spec_bytes()
    ||| text == "LeftTriangleEqual".spec_bytes()
    ||| text == "LeftUpDownVector".spec_bytes()
    ||| text == "LeftUpTeeVector".spec_bytes()
    ||| text == "LeftUpVector".spec_bytes()
    ||| text == "LeftUpVectorBar".spec_bytes()
    ||| text == "LeftVector".spec_bytes()
    ||| text == "LeftVectorBar".spec_bytes()
    ||| text == "Leftarrow".spec_bytes()
    ||| text == "Leftrightarrow".spec_bytes()
    ||| text == "LessEqualGreater".spec_bytes()
    ||| text == "LessFullEqual".spec_bytes()
    ||| text == "LessGreater".spec_bytes()
    ||| text == "LessLess".spec_bytes()
    ||| text == "LessSlantEqual".spec_bytes()
    ||| text == "LessTilde".spec_bytes()
    ||| text == "Lfr".spec_bytes()
    ||| text == "Ll".spec_bytes()
    ||| text == "Lleftarrow".spec_bytes()
    ||| text == "Lmidot".spec_bytes()
    ||| text == "LongLeftArrow".spec_bytes()
    ||| text == "LongLeftRightArrow".spec_bytes()
    ||| text == "LongRightArrow".spec_bytes()
    ||| text == "Longleftarrow".spec_bytes()
}

/// Whether the bytes `start..end` are one of the names from `LeftTriangle` to
/// `Longleftarrow`.
fn is_named_10(bytes: &[u8], start: usize, end: usize) -> (is: bool)
    requires
        start <= end <= bytes.len(),
    ensures
        is == named_10(bytes@.subrange(start as int, end as int)),
{
    range_is(bytes, start, end, "LeftTriangle".as_bytes())
        || range_is(bytes, start, end, "LeftTriangleBar".as_bytes())
        || range_is(bytes, start, end, "LeftTriangleEqual".as_bytes())
        || range_is(bytes, start, end, "LeftUpDownVector".as_bytes())
        || range_is(bytes, start, end, "LeftUpTeeVector".as_bytes())
        || range_is(bytes, start, end, "LeftUpVector".as_bytes())
        || range_is(bytes, start, end, "LeftUpVectorBar".as_bytes())
        || range_is(bytes, start, end, "LeftVector".as_bytes())
        || range_is(bytes, start, end, "LeftVectorBar".as_bytes())
        || range_is(bytes, start, end, "Leftarrow".as_bytes())
        || range_is(bytes, start, end, "Leftrightarrow".as_bytes())
        || range_is(bytes, start, end, "LessEqualGreater".as_bytes())
        || range_is(bytes, start, end, "LessFullEqual".as_bytes())
        || range_is(bytes, start, end, "LessGreater".as_bytes())
        || range_is(bytes, start, end, "LessLess".as_bytes())
        || range_is(bytes, start, end, "LessSlantEqual".as_bytes())
        || range_is(bytes, start, end, "LessTilde".as_bytes())
        || range_is(bytes, start, end, "Lfr".as_bytes())
        || range_is(bytes, start, end, "Ll".as_bytes())
        || range_is(bytes, start, end, "Lleftarrow".as_bytes())
        || range_is(bytes, start, end, "Lmidot".as_bytes())
        || range_is(bytes, start, end, "LongLeftArrow".as_bytes())
        || range_is(bytes, start, end, "LongLeftRightArrow".as_bytes())
        || range_is(bytes, start, end, "LongRightArrow".as_bytes())
        || range_is(bytes, start, end, "Longleftarrow".as_bytes())
}

/// Whether the text is one of the names from `Longleftrightarrow` to `NegativeThickSpace`.
pub open spec fn named_11(text: Seq<u8>) -> bool {
    ||| text == "Longleftrightarrow".spec_bytes()
    ||| text == "Longrightarrow".spec_bytes()
    ||| text == "Lopf".spec_bytes()
    ||| text == "LowerLeftArrow".spec_bytes()
    ||| text == "LowerRightArrow".spec_bytes()
    ||| text == "Lscr".spec_bytes()
    ||| text == "Lsh".spec_bytes()
    ||| text == "Lstrok".spec_bytes()
    ||| text == "Lt".spec_bytes()
    ||| text == "Map".spec_bytes()
    ||| text == "Mcy".spec_bytes()
    ||| text == "MediumSpace".spec_bytes()
    ||| text == "Mellintrf".spec_bytes()
    ||| text == "Mfr".spec_bytes()
    ||| text == "MinusPlus".spec_bytes()
    ||| text == "Mopf".spec_bytes()
    ||| text == "Mscr".spec_bytes()
    ||| text == "Mu".spec_bytes()
    ||| text == "NJcy".spec_bytes()
    ||| text == "Nacute".spec_bytes()
    ||| text == "Ncaron".spec_bytes()
    ||| text == "Ncedil".spec_bytes()
    ||| text == "Ncy".spec_bytes()
    ||| text == "NegativeMediumSpace".spec_bytes()
    ||| text == "NegativeThickSpace".spec_bytes()
}

/// Whether the bytes `start..end` are one of the names from `Longleftrightarrow` to
/// `NegativeThickSpace`.
fn is_named_11(bytes: &[u8], start: usize, end: usize) -> (is: bool)
    requires
        start <= end <= bytes.len(),
    ensures
        is == named_11(bytes@.subrange(start as int, end as int)),
{
    range_is(bytes, start, end, "Longleftrightarrow".as_bytes())
        || range_is(bytes, start, end, "Longrightarrow".as_bytes())
        || range_is(bytes, start, end, "Lopf".as_bytes())
        || range_is(bytes, start, end, "LowerLeftArrow".as_bytes())
        || range_is(bytes, start, end, "LowerRightArrow".as_bytes())
        || range_is(bytes, start, end, "Lscr".as_bytes())
        || range_is(bytes, start, end, "Lsh".as_bytes())
        || range_is(bytes, start, end, "Lstrok".as_bytes())
        || range_is(bytes, start, end, "Lt".as_bytes())
        || range_is(bytes, start, end, "Map".as_bytes())
        || range_is(bytes, start, end, "Mcy".as_bytes())
        || range_is(bytes, start, end, "MediumSpace".as_bytes())
        || range_is(bytes, start, end, "Mellintrf".as_bytes())
        || range_is(bytes, start, end, "Mfr".as_bytes())
        || range_is(bytes, start, end, "MinusPlus".as_bytes())
        || range_is(bytes, start, end, "Mopf".as_bytes())
        || range_is(bytes, start, end, "Mscr".as_bytes())
        || range_is(bytes, start, end, "Mu".as_bytes())
        || range_is(bytes, start, end, "NJcy".as_bytes())
        || range_is(bytes, start, end, "Nacute".as_bytes())
        || range_is(bytes, start, end, "Ncaron".as_bytes())
        || range_is(bytes, start, end, "Ncedil".as_bytes())
        || range_is(bytes, start, end, "Ncy".as_bytes())
        || range_is(bytes, start, end, "NegativeMediumSpace".as_bytes())
        || range_is(bytes, start, end, "NegativeThickSpace".as_bytes())
}

/// Whether the text is one of the names from `NegativeThinSpace` to `NotHumpDownHump`.
pub open spec fn named_12(text: Seq<u8>) -> bool {
    ||| text == "NegativeThinSpace".spec_bytes()
    ||| text == "NegativeVeryThinSpace".spec_bytes()
    ||| text == "NestedGreaterGreater".spec_bytes()
    ||| text == "NestedLessLess".spec_bytes()
    ||| text == "NewLine".spec_bytes()
    ||| text == "Nfr".spec_bytes()
    ||| text == "NoBreak".spec_bytes()
    ||| text == "NonBreakingSpace".spec_bytes()
    ||| text == "Nopf".spec_bytes()
    ||| text == "Not".spec_bytes()
    ||| text == "NotCongruent".spec_bytes()
    ||| text == "NotCupCap".spec_bytes()
    ||| text == "NotDoubleVerticalBar".spec_bytes()
    ||| text == "NotElement".spec_bytes()
    ||| text == "NotEqual".spec_bytes()
    ||| text == "NotEqualTilde".spec_bytes()
    ||| text == "NotExists".spec_bytes()
    ||| text == "NotGreater".spec_bytes()
    ||| text == "NotGreaterEqual".spec_bytes()
    ||| text == "NotGreaterFullEqual".spec_bytes()
    ||| text == "NotGreaterGreater".spec_bytes()
    ||| text == "NotGreaterLess".spec_bytes()
    ||| text == "NotGreaterSlantEqual".spec_bytes()
    ||| text == "NotGreaterTilde".spec_bytes()
    ||| text == "NotHumpDownHump".spec_bytes()
}

/// Whether the bytes `start..end` are one of the names from `NegativeThinSpace` to
/// `NotHumpDownHump`.
fn is_named_12(bytes: &[u8], start: usize, end: usize) -> (is: bool)
    requires
        start <= end <= bytes.len(),
    ensures
        is == named_12(bytes@.subrange(start as int, end as int)),
{
    range_is(bytes, start, end, "NegativeThinSpace".as_bytes())
        || range_is(bytes, start, end, "NegativeVeryThinSpace".as_bytes())
        || range_is(bytes, start, end, "NestedGreaterGreater".as_bytes())
        || range_is(bytes, start, end, "NestedLessLess".as_bytes())
        || range_is(bytes, start, end, "NewLine".as_bytes())
        || range_is(bytes, start, end, "Nfr".as_bytes())
        || range_is(bytes, start, end, "NoBreak".as_bytes())
        || range_is(bytes, start, end, "NonBreakingSpace".as_bytes())
        || range_is(bytes, start, end, "Nopf".as_bytes())
        || range_is(bytes, start, end, "Not".as_bytes())
        || range_is(bytes, start, end, "NotCongruent".as_bytes())
        || range_is(bytes, start, end, "NotCupCap".as_bytes())
        || range_is(bytes, start, end, "NotDoubleVerticalBar".as_bytes())
        || range_is(bytes, start, end, "NotElement".as_bytes())
        || range_is(bytes, start, end, "NotEqual".as_bytes())
        || range_is(bytes, start, end, "NotEqualTilde".as_bytes())
        || range_is(bytes, start, end, "NotExists".as_bytes())
        || range_is(bytes, start, end, "NotGreater".as_bytes())
        || range_is(bytes, start, end, "NotGreaterEqual".as_bytes())
        || range_is(bytes, start, end, "NotGreaterFullEqual".as_bytes())
        || range_is(bytes, start, end, "NotGreaterGreater".as_bytes())
        || range_is(bytes, start, end, "NotGreaterLess".as_bytes())
        || range_is(bytes, start, end, "NotGreaterSlantEqual".as_bytes())
        || range_is(bytes, start, end, "NotGreaterTilde".as_bytes())
        || range_is(bytes, start, end, "NotHumpDownHump".as_bytes())
}

/// Whether the text is one of the names from `NotHumpEqual` to `NotSubsetEqual`.
pub open spec fn named_13(text: Seq<u8>) -> bool {
    ||| text == "NotHumpEqual".spec_bytes()
    ||| text == "NotLeftTriangle".spec_bytes()
    ||| text == "NotLeftTriangleBar".spec_bytes()
    ||| text == "NotLeftTriangleEqual".spec_bytes()
    ||| text == "NotLess".spec_bytes()
    ||| text == "NotLessEqual".spec_bytes()
    ||| text == "NotLessGreater".spec_bytes()
    ||| text == "NotLessLess".spec_bytes()
    ||| text == "NotLessSlantEqual".spec_bytes()
    ||| text == "NotLessTilde".spec_bytes()
    ||| text == "NotNestedGreaterGreater".spec_bytes()
    ||| text == "NotNestedLessLess".spec_bytes()
    ||| text == "NotPrecedes".spec_bytes()
    ||| text == "NotPrecedesEqual".spec_bytes()
    ||| text == "NotPrecedesSlantEqual".spec_bytes()
    ||| text == "NotReverseElement".spec_bytes()
    ||| text == "NotRightTriangle".spec_bytes()
    ||| text == "NotRightTriangleBar".spec_bytes()
    ||| text == "NotRightTriangleEqual".spec_bytes()
    ||| text == "NotSquareSubset".spec_bytes()
    ||| text == "NotSquareSubsetEqual".spec_bytes()
    ||| text == "NotSquareSuperset".spec_bytes()
    ||| text == "NotSquareSupersetEqual".spec_bytes()
    ||| text == "NotSubset".spec_bytes()
    ||| text == "NotSubsetEqual".spec_bytes()
}

/// Whether the bytes `start..end` are one of the names from `NotHumpEqual` to
/// `NotSubsetEqual`.
fn is_named_13(bytes: &[u8], start: usize, end: usize) -> (is: bool)
    requires
        start <= end <= bytes.len(),
    ensures
        is == named_13(bytes@.subrange(start as int, end as int)),
{
    range_is(bytes, start, end, "NotHumpEqual".as_bytes())
        || range_is(bytes, start, end, "NotLeftTriangle".as_bytes())
        || range_is(bytes, start, end, "NotLeftTriangleBar".as_bytes())
        || range_is(bytes, start, end, "NotLeftTriangleEqual".as_bytes())
        || range_is(bytes, start, end, "NotLess".as_bytes())
        || range_is(bytes, start, end, "NotLessEqual".as_bytes())
        || range_is(bytes, start, end, "NotLessGreater".as_bytes())
        || range_is(bytes, start, end, "NotLessLess".as_bytes())
        || range_is(bytes, start, end, "NotLessSlantEqual".as_bytes())
        || range_is(bytes, start, end, "NotLessTilde".as_bytes())
        || range_is(bytes, start, end, "NotNestedGreaterGreater".as_bytes())
        || range_is(bytes, start, end, "NotNestedLessLess".as_bytes())
        || range_is(bytes, start, end, "NotPrecedes".as_bytes())
        || range_is(bytes, start, end, "NotPrecedesEqual".as_bytes())
        || range_is(bytes, start, end, "NotPrecedesSlantEqual".as_bytes())
        || range_is(bytes, start, end, "NotReverseElement".as_bytes())
        || range_is(bytes, start, end, "NotRightTriangle".as_bytes())
        || range_is(bytes, start, end, "NotRightTriangleBar".as_bytes())
        || range_is(bytes, start, end, "NotRightTriangleEqual".as_bytes())
        || range_is(bytes, start, end, "NotSquareSubset".as_bytes())
        || range_is(bytes, start, end, "NotSquareSubsetEqual".as_bytes())
        || range_is(bytes, start, end, "NotSquareSuperset".as_bytes())
        || range_is(bytes, start, end, "NotSquareSupersetEqual".as_bytes())
        || range_is(bytes, start, end, "NotSubset".as_bytes())
        || range_is(bytes, start, end, "NotSubsetEqual".as_bytes())
}

/// Whether the text is one of the names from `NotSucceeds` to `Oopf`.
pub open spec fn named_14(text: Seq<u8>) -> bool {
    ||| text == "NotSucceeds".spec_bytes()
    ||| text == "NotSucceedsEqual".spec_bytes()
    ||| text == "NotSucceedsSlantEqual".spec_bytes()
    ||| text == "NotSucceedsTilde".spec_bytes()
    ||| text == "NotSuperset".spec_bytes()
    ||| text == "NotSupersetEqual".spec_bytes()
    ||| text == "NotTilde".spec_bytes()
    ||| text == "NotTildeEqual".spec_bytes()
    ||| text == "NotTildeFullEqual".spec_bytes()
    ||| text == "NotTildeTilde".spec_bytes()
    ||| text == "NotVerticalBar".spec_bytes()
    ||| text == "Nscr".spec_bytes()
    ||| text == "Ntilde".spec_bytes()
    ||| text == "Nu".spec_bytes()
    ||| text == "OElig".spec_bytes()
    ||| text == "Oacute".spec_bytes()
    ||| text == "Ocirc".spec_bytes()
    ||| text == "Ocy".spec_bytes()
    ||| text == "Odblac".spec_bytes()
    ||| text == "Ofr".spec_bytes()
    ||| text == "Ograve".spec_bytes()
    ||| text == "Omacr".spec_bytes()
    ||| text == "Omega".spec_bytes()
    ||| text == "Omicron".spec_bytes()
    ||| text == "Oopf".spec_bytes()
}

/// Whether the bytes `start..end` are one of the names from `NotSucceeds` to
/// `Oopf`.
fn is_named_14(bytes: &[u8], start: usize, end: usize) -> (is: bool)
    requires
        start <= end <= bytes.len(),
    ensures
        is == named_14(bytes@.subrange(start as int, end as int)),
{
    range_is(bytes, start, end, "NotSucceeds".as_bytes())
        || range_is(bytes, start, end, "NotSucceedsEqual".as_bytes())
        || range_is(bytes, start, end, "NotSucceedsSlantEqual".as_bytes())
        || range_is(bytes, start, end, "NotSucceedsTilde".as_bytes())
        || range_is(bytes, start, end, "NotSuperset".as_bytes())
        || range_is(bytes, start, end, "NotSupersetEqual".as_bytes())
        || range_is(bytes, start, end, "NotTilde".as_bytes())
        || range_is(bytes, start, end, "NotTildeEqual".as_bytes())
        || range_is(bytes, start, end, "NotTildeFullEqual".as_bytes())
        || range_is(bytes, start, end, "NotTildeTilde".as_bytes())
        || range_is(bytes, start, end, "NotVerticalBar".as_bytes())
        || range_is(bytes, start, end, "Nscr".as_bytes())
        || range_is(bytes, start, end, "Ntilde".as_bytes())
        || range_is(bytes, start, end, "Nu".as_bytes())
        || range_is(bytes, start, end, "OElig".as_bytes())
        || range_is(bytes, start, end, "Oacute".as_bytes())
        || range_is(bytes, start, end, "Ocirc".as_bytes())
        || range_is(bytes, start, end, "Ocy".as_bytes())
        || range_is(bytes, start, end, "Odblac".as_bytes())
        || range_is(bytes, start, end, "Ofr".as_bytes())
        || range_is(bytes, start, end, "Ograve".as_bytes())
        || range_is(bytes, start, end, "Omacr".as_bytes())
        || range_is(bytes, start, end, "Omega".as_bytes())
        || range_is(bytes, start, end, "Omicron".as_bytes())
        || range_is(bytes, start, end, "Oopf".as_bytes())
}

/// Whether the text is one of the names from `OpenCurlyDoubleQuote` to `PrecedesTilde`.
pub open spec fn named_15(text: Seq<u8>) -> bool {
    ||| text == "OpenCurlyDoubleQuote".spec_bytes()
    ||| text == "OpenCurlyQuote".spec_bytes()
    ||| text == "Or".spec_bytes()
    ||| text == "Oscr".spec_bytes()
    ||| text == "Oslash".spec_bytes()
    ||| text == "Otilde".spec_bytes()
    ||| text == "Otimes".spec_bytes()
    ||| text == "Ouml".spec_bytes()
    ||| text == "OverBar".spec_bytes()
    ||| text == "OverBrace".spec_bytes()
    ||| text == "OverBracket".spec_bytes()
    ||| text == "OverParenthesis".spec_bytes()
    ||| text == "PartialD".spec_bytes()
    ||| text == "Pcy".spec_bytes()
    ||| text == "Pfr".spec_bytes()
    ||| text == "Phi".spec_bytes()
    ||| text == "Pi".spec_bytes()
    ||| text == "PlusMinus".spec_bytes()
    ||| text == "Poincareplane".spec_bytes()
    ||| text == "Popf".spec_bytes()
    ||| text == "Pr".spec_bytes()
    ||| text == "Precedes".spec_bytes()
    ||| text == "PrecedesEqual".spec_bytes()
    ||| text == "PrecedesSlantEqual".spec_bytes()
    ||| text == "PrecedesTilde".spec_bytes()
}

/// Whether the bytes `start..end` are one of the names from `OpenCurlyDoubleQuote` to
/// `PrecedesTilde`.
fn is_named_15(bytes: &[u8], start: usize, end: usize) -> (is: bool)
    requires
        start <= end <= bytes.len(),
    ensures
        is == named_15(bytes@.subrange(start as int, end as int)),
{
    range_is(bytes, start, end, "OpenCurlyDoubleQuote".as_bytes())
        || range_is(bytes, start, end, "OpenCurlyQuote".as_bytes())
        || range_is(bytes, start, end, "Or".as_bytes())
        || range_is(bytes, start, end, "Oscr".as_bytes())
        || range_is(bytes, start, end, "Oslash".as_bytes())
        || range_is(bytes, start, end, "Otilde".as_bytes())
        || range_is(bytes, start, end, "Otimes".as_bytes())
        || range_is(bytes, start, end, "Ouml".as_bytes())
        || range_is(bytes, start, end, "OverBar".as_bytes())
        || range_is(bytes, start, end, "OverBrace".as_bytes())
        || range_is(bytes, start, end, "OverBracket".as_bytes())
        || range_is(bytes, start, end, "OverParenthesis".as_bytes())
        || range_is(bytes, start, end, "PartialD".as_bytes())
        || range_is(bytes, start, end, "Pcy".as_bytes())
        || range_is(bytes, start, end, "Pfr".as_bytes())
        || range_is(bytes, start, end, "Phi".as_bytes())
        || range_is(bytes, start, end, "Pi".as_bytes())
        || range_is(bytes, start, end, "PlusMinus".as_bytes())
        || range_is(bytes, start, end, "Poincareplane".as_bytes())
        || range_is(bytes, start, end, "Popf".as_bytes())
        || range_is(bytes, start, end, "Pr".as_bytes())
        || range_is(bytes, start, end, "Precedes".as_bytes())
        || range_is(bytes, start, end, "PrecedesEqual".as_bytes())
        || range_is(bytes, start, end, "PrecedesSlantEqual".as_bytes())
        || range_is(bytes, start, end, "PrecedesTilde".as_bytes())
}

/// Whether the text is one of the names from `Prime` to `Rho`.
pub open spec fn named_16(text: Seq<u8>) -> bool {
    ||| text == "Prime".spec_bytes()
    ||| text == "Product".spec_bytes()
    ||| text == "Proportion".spec_bytes()
    ||| text == "Proportional".spec_bytes()
    ||| text == "Pscr".spec_bytes()
    ||| text == "Psi".spec_bytes()
    ||| text == "QUOT".spec_bytes()
    ||| text == "Qfr".spec_bytes()
    ||| text == "Qopf".spec_bytes()
    ||| text == "Qscr".spec_bytes()
    ||| text == "RBarr".spec_bytes()
    ||| text == "REG".spec_bytes()
    ||| text == "Racute".spec_bytes()
    ||| text == "Rang".spec_bytes()
    ||| text == "Rarr".spec_bytes()
    ||| text == "Rarrtl".spec_bytes()
    ||| text == "Rcaron".spec_bytes()
    ||| text == "Rcedil".spec_bytes()
    ||| text == "Rcy".spec_bytes()
    ||| text == "Re".spec_bytes()
    ||| text == "ReverseElement".spec_bytes()
    ||| text == "ReverseEquilibrium".spec_bytes()
    ||| text == "ReverseUpEquilibrium".spec_bytes()
    ||| text == "Rfr".spec_bytes()
    ||| text == "Rho".spec_bytes()
}

/// Whether the bytes `start..end` are one of the names from `Prime` to
/// `Rho`.
fn is_named_16(bytes: &[u8], start: usize, end: usize) -> (is: bool)
    requires
        start <= end <= bytes.len(),
    ensures
        is == named_16(bytes@.subrange(start as int, end as int)),
{
    range_is(bytes, start, end, "Prime".as_bytes())
        || range_is(bytes, start, end, "Product".as_bytes())
        || range_is(bytes, start, end, "Proportion".as_bytes())
        || range_is(bytes, start, end, "Proportional".as_bytes())
        || range_is(bytes, start, end, "Pscr".as_bytes())
        || range_is(bytes, start, end, "Psi".as_bytes())
        || range_is(bytes, start, end, "QUOT".as_bytes())
        || range_is(bytes, start, end, "Qfr".as_bytes())
        || range_is(bytes, start, end, "Qopf".as_bytes())
        || range_is(bytes, start, end, "Qscr".as_bytes())
        || range_is(bytes, start, end, "RBarr".as_bytes())
        || range_is(bytes, start, end, "REG".as_bytes())
        || range_is(bytes, start, end, "Racute".as_bytes())
        || range_is(bytes, start, end, "Rang".as_bytes())
        || range_is(bytes, start, end, "Rarr".as_bytes())
        || range_is(bytes, start, end, "Rarrtl".as_bytes())
        || range_is(bytes, start, end, "Rcaron".as_bytes())
        || range_is(bytes, start, end, "Rcedil".as_bytes())
        || range_is(bytes, start, end, "Rcy".as_bytes())
        || range_is(bytes, start, end, "Re".as_bytes())
        || range_is(bytes, start, end, "ReverseElement".as_bytes())
        || range_is(bytes, start, end, "ReverseEquilibrium".as_bytes())
        || range_is(bytes, start, end, "ReverseUpEquilibrium".as_bytes())
        || range_is(bytes, start, end, "Rfr".as_bytes())
        || range_is(bytes, start, end, "Rho".as_bytes())
}

/// Whether the text is one of the names from `RightAngleBracket` to `RoundImplies`.
pub open spec fn named_17(text: Seq<u8>) -> bool {
    ||| text == "RightAngleBracket".spec_bytes()
    ||| text == "RightArrow".spec_bytes()
    ||| text == "RightArrowBar".spec_bytes()
    ||| text == "RightArrowLeftArrow".spec_bytes()
    ||| text == "RightCeiling".spec_bytes()
    ||| text == "RightDoubleBracket".spec_bytes()
    ||| text == "RightDownTeeVector".spec_bytes()
    ||| text == "RightDownVector".spec_bytes()
    ||| text == "RightDownVectorBar".spec_bytes()
    ||| text == "RightFloor".spec_bytes()
    ||| text == "RightTee".spec_bytes()
    ||| text == "RightTeeArrow".spec_bytes()
    ||| text == "RightTeeVector".spec_bytes()
    ||| text == "RightTriangle".spec_bytes()
    ||| text == "RightTriangleBar".spec_bytes()
    ||| text == "RightTriangleEqual".spec_bytes()
    ||| text == "RightUpDownVector".spec_bytes()
    ||| text == "RightUpTeeVector".spec_bytes()
    ||| text == "RightUpVector".spec_bytes()
    ||| text == "RightUpVectorBar".spec_bytes()
    ||| text == "RightVector".spec_bytes()
    ||| text == "RightVectorBar".spec_bytes()
    ||| text == "Rightarrow".spec_bytes()
    ||| text == "Ropf".spec_bytes()
    ||| text == "RoundImplies".spec_bytes()
}

/// Whether the bytes `start..end` are one of the names from `RightAngleBracket` to
/// `RoundImplies`.
fn is_named_17(bytes: &[u8], start: usize, end: usize) -> (is: bool)
    requires
        start <= end <= bytes.len(),
    ensures
        is == named_17(bytes@.subrange(start as int, end as int)),
{
    range_is(bytes, start, end, "RightAngleBracket".as_bytes())
        || range_is(bytes, start, end, "RightArrow".as_bytes())
        || range_is(bytes, start, end, "RightArrowBar".as_bytes())
        || range_is(bytes, start, end, "RightArrowLeftArrow".as_bytes())
        || range_is(bytes, start, end, "RightCeiling".as_bytes())
        || range_is(bytes, start, end, "RightDoubleBracket".as_bytes())
        || range_is(bytes, start, end, "RightDownTeeVector".as_bytes())
        || range_is(bytes, start, end, "RightDownVector".as_bytes())
        || range_is(bytes, start, end, "RightDownVectorBar".as_bytes())
        || range_is(bytes, start, end, "RightFloor".as_bytes())
        || range_is(bytes, start, end, "RightTee".as_bytes())
        || range_is(bytes, start, end, "RightTeeArrow".as_bytes())
        || range_is(bytes, start, end, "RightTeeVector".as_bytes())
        || range_is(bytes, start, end, "RightTriangle".as_bytes())
        || range_is(bytes, start, end, "RightTriangleBar".as_bytes())
        || range_is(bytes, start, end, "RightTriangleEqual".as_bytes())
        || range_is(bytes, start, end, "RightUpDownVector".as_bytes())
        || range_is(bytes, start, end, "RightUpTeeVector".as_bytes())
        || range_is(bytes, start, end, "RightUpVector".as_bytes())
        || range_is(bytes, start, end, "RightUpVectorBar".as_bytes())
        || range_is(bytes, start, end, "RightVector".as_bytes())
        || range_is(bytes, start, end, "RightVectorBar".as_bytes())
        || range_is(bytes, start, end, "Rightarrow".as_bytes())
        || range_is(bytes, start, end, "Ropf".as_bytes())
        || range_is(bytes, start, end, "RoundImplies".as_bytes())
}

/// Whether the text is one of the names from `Rrightarrow` to `SquareSubset`.
pub open spec fn named_18(text: Seq<u8>) -> bool {
    ||| text == "Rrightarrow".spec_bytes()
    ||| text == "Rscr".spec_bytes()
    ||| text == "Rsh".spec_bytes()
    ||| text == "RuleDelayed".spec_bytes()
    ||| text == "SHCHcy".spec_bytes()
    ||| text == "SHcy".spec_bytes()
    ||| text == "SOFTcy".spec_bytes()
    ||| text == "Sacute".spec_bytes()
    ||| text == "Sc".spec_bytes()
    ||| text == "Scaron".spec_bytes()
    ||| text == "Scedil".spec_bytes()
    ||| text == "Scirc".spec_bytes()
    ||| text == "Scy".spec_bytes()
    ||| text == "Sfr".spec_bytes()
    ||| text == "ShortDownArrow".spec_bytes()
    ||| text == "ShortLeftArrow".spec_bytes()
    ||| text == "ShortRightArrow".spec_bytes()
    ||| text == "ShortUpArrow".spec_bytes()
    ||| text == "Sigma".spec_bytes()
    ||| text == "SmallCircle".spec_bytes()
    ||| text == "Sopf".spec_bytes()
    ||| text == "Sqrt".spec_bytes()
    ||| text == "Square".spec_bytes()
    ||| text == "SquareIntersection".spec_bytes()
    ||| text == "SquareSubset".spec_bytes()
}

/// Whether the bytes `start..end` are one of the names from `Rrightarrow` to
/// `SquareSubset`.
fn is_named_18(bytes: &[u8], start: usize, end: usize) -> (is: bool)
    requires
        start <= end <= bytes.len(),
    ensures
        is == named_18(bytes@.subrange(start as int, end as int)),
{
    range_is(bytes, start, end, "Rrightarrow".as_bytes())
        || range_is(bytes, start, end, "Rscr".as_bytes())
        || range_is(bytes, start, end, "Rsh".as_bytes())
        || range_is(bytes, start, end, "RuleDelayed".as_bytes())
        || range_is(bytes, start, end, "SHCHcy".as_bytes())
        || range_is(bytes, start, end, "SHcy".as_bytes())
        || range_is(bytes, start, end, "SOFTcy".as_bytes())
        || range_is(bytes, start, end, "Sacute".as_bytes())
        || range_is(bytes, start, end, "Sc".as_bytes())
        || range_is(bytes, start, end, "Scaron".as_bytes())
        || range_is(bytes, start, end, "Scedil".as_bytes())
        || range_is(bytes, start, end, "Scirc".as_bytes())
        || range_is(bytes, start, end, "Scy".as_bytes())
        || range_is(bytes, start, end, "Sfr".as_bytes())
        || range_is(bytes, start, end, "ShortDownArrow".as_bytes())
        || range_is(bytes, start, end, "ShortLeftArrow".as_bytes())
        || range_is(bytes, start, end, "ShortRightArrow".as_bytes())
        || range_is(bytes, start, end, "ShortUpArrow".as_bytes())
        || range_is(bytes, start, end, "Sigma".as_bytes())
        || range_is(bytes, start, end, "SmallCircle".as_bytes())
        || range_is(bytes, start, end, "Sopf".as_bytes())
        || range_is(bytes, start, end, "Sqrt".as_bytes())
        || range_is(bytes, start, end, "Square".as_bytes())
        || range_is(bytes, start, end, "SquareIntersection".as_bytes())
        || range_is(bytes, start, end, "SquareSubset".as_bytes())
}

/// Whether the text is one of the names from `SquareSubsetEqual` to `Tau`.
pub open spec fn named_19(text: Seq<u8>) -> bool {
    ||| text == "SquareSubsetEqual".spec_bytes()
    ||| text == "SquareSuperset".spec_bytes()
    ||| text == "SquareSupersetEqual".spec_bytes()
    ||| text == "SquareUnion".spec_bytes()
    ||| text == "Sscr".spec_bytes()
    ||| text == "Star".spec_bytes()
    ||| text == "Sub".spec_bytes()
    ||| text == "Subset".spec_bytes()
    ||| text == "SubsetEqual".spec_bytes()
    ||| text == "Succeeds".spec_bytes()
    ||| text == "SucceedsEqual".spec_bytes()
    ||| text == "SucceedsSlantEqual".spec_bytes()
    ||| text == "SucceedsTilde".spec_bytes()
    ||| text == "SuchThat".spec_bytes()
    ||| text == "Sum".spec_bytes()
    ||| text == "Sup".spec_bytes()
    ||| text == "Superset".spec_bytes()
    ||| text == "SupersetEqual".spec_bytes()
    ||| text == "Supset".spec_bytes()
    ||| text == "THORN".spec_bytes()
    ||| text == "TRADE".spec_bytes()
    ||| text == "TSHcy".spec_bytes()
    ||| text == "TScy".spec_bytes()
    ||| text == "Tab".spec_bytes()
    ||| text == "Tau".spec_bytes()
}

/// Whether the bytes `start..end` are one of the names from `SquareSubsetEqual` to
/// `Tau`.
fn is_named_19(bytes: &[u8], start: usize, end: usize) -> (is: bool)
    requires
        start <= end <= bytes.len(),
    ensures
        is == named_19(bytes@.subrange(start as int, end as int)),
{
    range_is(bytes, start, end, "SquareSubsetEqual".as_bytes())
        || range_is(bytes, start, end, "SquareSuperset".as_bytes())
        || range_is(bytes, start, end, "SquareSupersetEqual".as_bytes())
        || range_is(bytes, start, end, "SquareUnion".as_bytes())
        || range_is(bytes, start, end, "Sscr".as_bytes())
        || range_is(bytes, start, end, "Star".as_bytes())
        || range_is(bytes, start, end, "Sub".as_bytes())
        || range_is(bytes, start, end, "Subset".as_bytes())
        || range_is(bytes, start, end, "SubsetEqual".as_bytes())
        || range_is(bytes, start, end, "Succeeds".as_bytes())
        || range_is(bytes, start, end, "SucceedsEqual".as_bytes())
        || range_is(bytes, start, end, "SucceedsSlantEqual".as_bytes())
        || range_is(bytes, start, end, "SucceedsTilde".as_bytes())
        || range_is(bytes, start, end, "SuchThat".as_bytes())
        || range_is(bytes, start, end, "Sum".as_bytes())
        || range_is(bytes, start, end, "Sup".as_bytes())
        || range_is(bytes, start, end, "Superset".as_bytes())
        || range_is(bytes, start, end, "SupersetEqual".as_bytes())
        || range_is(bytes, start, end, "Supset".as_bytes())
        || range_is(bytes, start, end, "THORN".as_bytes())
        || range_is(bytes, start, end, "TRADE".as_bytes())
        || range_is(bytes, start, end, "TSHcy".as_bytes())
        || range_is(bytes, start, end, "TScy".as_bytes())
        || range_is(bytes, start, end, "Tab".as_bytes())
        || range_is(bytes, start, end, "Tau".as_bytes())
}

/// Whether the text is one of the names from `Tcaron` to `Ufr`.
pub open spec fn named_20(text: Seq<u8>) -> bool {
    ||| text == "Tcaron".spec_bytes()
    ||| text == "Tcedil".spec_bytes()
    ||| text == "Tcy".spec_bytes()
    ||| text == "Tfr".spec_bytes()
    ||| text == "Therefore".spec_bytes()
    ||| text == "Theta".spec_bytes()
    ||| text == "ThickSpace".spec_bytes()
    ||| text == "ThinSpace".spec_bytes()
    ||| text == "Tilde".spec_bytes()
    ||| text == "TildeEqual".spec_bytes()
    ||| text == "TildeFullEqual".spec_bytes()
    ||| text == "TildeTilde".spec_bytes()
    ||| text == "Topf".spec_bytes()
    ||| text == "TripleDot".spec_bytes()
    ||| text == "Tscr".spec_bytes()
    ||| text == "Tstrok".spec_bytes()
    ||| text == "Uacute".spec_bytes()
    ||| text == "Uarr".spec_bytes()
    ||| text == "Uarrocir".spec_bytes()
    ||| text == "Ubrcy".spec_bytes()
    ||| text == "Ubreve".spec_bytes()
    ||| text == "Ucirc".spec_bytes()
    ||| text == "Ucy".spec_bytes()
    ||| text == "Udblac".spec_bytes()
    ||| text == "Ufr".spec_bytes()
}

/// Whether the bytes `start..end` are one of the names from `Tcaron` to
/// `Ufr`.
fn is_named_20(bytes: &[u8], start: usize, end: usize) -> (is: bool)
    requires
        start <= end <= bytes.len(),
    ensures
        is == named_20(bytes@.subrange(start as int, end as int)),
{
    range_is(bytes, start, end, "Tcaron".as_bytes())
        || range_is(bytes, start, end, "Tcedil".as_bytes())
        || range_is(bytes, start, end, "Tcy".as_bytes())
        || range_is(bytes, start, end, "Tfr".as_bytes())
        || range_is(bytes, start, end, "Therefore".as_bytes())
        || range_is(bytes, start, end, "Theta".as_bytes())
        || range_is(bytes, start, end, "ThickSpace".as_bytes())
        || range_is(bytes, start, end, "ThinSpace".as_bytes())
        || range_is(bytes, start, end, "Tilde".as_bytes())
        || range_is(bytes, start, end, "TildeEqual".as_bytes())
        || range_is(bytes, start, end, "TildeFullEqual".as_bytes())
        || range_is(bytes, start, end, "TildeTilde".as_bytes())
        || range_is(bytes, start, end, "Topf".as_bytes())
        || range_is(bytes, start, end, "TripleDot".as_bytes())
        || range_is(bytes, start, end, "Tscr".as_bytes())
        || range_is(bytes, start, end, "Tstrok".as_bytes())
        || range_is(bytes, start, end, "Uacute".as_bytes())
        || range_is(bytes, start, end, "Uarr".as_bytes())
        || range_is(bytes, start, end, "Uarrocir".as_bytes())
        || range_is(bytes, start, end, "Ubrcy".as_bytes())
        || range_is(bytes, start, end, "Ubreve".as_bytes())
        || range_is(bytes, start, end, "Ucirc".as_bytes())
        || range_is(bytes, start, end, "Ucy".as_bytes())
        || range_is(bytes, start, end, "Udblac".as_bytes())
        || range_is(bytes, start, end, "Ufr".as_bytes())
}

/// Whether the text is one of the names from `Ugrave` to `Uscr`.
pub open spec fn named_21(text: Seq<u8>) -> bool {
    ||| text == "Ugrave".spec_bytes()
    ||| text == "Umacr".spec_bytes()
    ||| text == "UnderBar".spec_bytes()
    ||| text == "UnderBrace".spec_bytes()
    ||| text == "UnderBracket".spec_bytes()
    ||| text == "UnderParenthesis".spec_bytes()
    ||| text == "Union".spec_bytes()
    ||| text == "UnionPlus".spec_bytes()
    ||| text == "Uogon".spec_bytes()
    ||| text == "Uopf".spec_bytes()
    ||| text == "UpArrow".spec_bytes()
    ||| text == "UpArrowBar".spec_bytes()
    ||| text == "UpArrowDownArrow".spec_bytes()
    ||| text == "UpDownArrow".spec_bytes()
    ||| text == "UpEquilibrium".spec_bytes()
    ||| text == "UpTee".spec_bytes()
    ||| text == "UpTeeArrow".spec_bytes()
    ||| text == "Uparrow".spec_bytes()
    ||| text == "Updownarrow".spec_bytes()
    ||| text == "UpperLeftArrow".spec_bytes()
    ||| text == "UpperRightArrow".spec_bytes()
    ||| text == "Upsi".spec_bytes()
    ||| text == "Upsilon".spec_bytes()
    ||| text == "Uring".spec_bytes()
    ||| text == "Uscr".spec_bytes()
}

/// Whether the bytes `start..end` are one of the names from `Ugrave` to
/// `Uscr`.
fn is_named_21(bytes: &[u8], start: usize, end: usize) -> (is: bool)
    requires
        start <= end <= bytes.len(),
    ensures
        is == named_21(bytes@.subrange(start as int, end as int)),
{
    range_is(bytes, start, end, "Ugrave".as_bytes())
        || range_is(bytes, start, end, "Umacr".as_bytes())
        || range_is(bytes, start, end, "UnderBar".as_bytes())
        || range_is(bytes, start, end, "UnderBrace".as_bytes())
        || range_is(bytes, start, end, "UnderBracket".as_bytes())
        || range_is(bytes, start, end, "UnderParenthesis".as_bytes())
        || range_is(bytes, start, end, "Union".as_bytes())
        || range_is(bytes, start, end, "UnionPlus".as_bytes())
        || range_is(bytes, start, end, "Uogon".as_bytes())
        || range_is(bytes, start, end, "Uopf".as_bytes())
        || range_is(bytes, start, end, "UpArrow".as_bytes())
        || range_is(bytes, start, end, "UpArrowBar".as_bytes())
        || range_is(bytes, start, end, "UpArrowDownArrow".as_bytes())
        || range_is(bytes, start, end, "UpDownArrow".as_bytes())
        || range_is(bytes, start, end, "UpEquilibrium".as_bytes())
        || range_is(bytes, start, end, "UpTee".as_bytes())
        || range_is(bytes, start, end, "UpTeeArrow".as_bytes())
        || range_is(bytes, start, end, "Uparrow".as_bytes())
        || range_is(bytes, start, end, "Updownarrow".as_bytes())
        || range_is(bytes, start, end, "UpperLeftArrow".as_bytes())
        || range_is(bytes, start, end, "UpperRightArrow".as_bytes())
        || range_is(bytes, start, end, "Upsi".as_bytes())
        || range_is(bytes, start, end, "Upsilon".as_bytes())
        || range_is(bytes, start, end, "Uring".as_bytes())
        || range_is(bytes, start, end, "Uscr".as_bytes())
}

/// Whether the text is one of the names from `Utilde` to `Xfr`.
pub open spec fn named_22(text: Seq<u8>) -> bool {
    ||| text == "Utilde".spec_bytes()
    ||| text == "Uuml".spec_bytes()
    ||| text == "VDash".spec_bytes()
    ||| text == "Vbar".spec_bytes()
    ||| text == "Vcy".spec_bytes()
    ||| text == "Vdash".spec_bytes()
    ||| text == "Vdashl".spec_bytes()
    ||| text == "Vee".spec_bytes()
    ||| text == "Verbar".spec_bytes()
    ||| text == "Vert".spec_bytes()
    ||| text == "VerticalBar".spec_bytes()
    ||| text == "VerticalLine".spec_bytes()
    ||| text == "VerticalSeparator".spec_bytes()
    ||| text == "VerticalTilde".spec_bytes()
    ||| text == "VeryThinSpace".spec_bytes()
    ||| text == "Vfr".spec_bytes()
    ||| text == "Vopf".spec_bytes()
    ||| text == "Vscr".spec_bytes()
    ||| text == "Vvdash".spec_bytes()
    ||| text == "Wcirc".spec_bytes()
    ||| text == "Wedge".spec_bytes()
    ||| text == "Wfr".spec_bytes()
    ||| text == "Wopf".spec_bytes()
    ||| text == "Wscr".spec_bytes()
    ||| text == "Xfr".spec_bytes()
}

/// Whether the bytes `start..end` are one of the names from `Utilde` to
/// `Xfr`.
fn is_named_22(bytes: &[u8], start: usize, end: usize) -> (is: bool)
    requires
        start <= end <= bytes.len(),
    ensures
        is == named_22(bytes@.subrange(start as int, end as int)),
{
    range_is(bytes, start, end, "Utilde".as_bytes())
        || range_is(bytes, start, end, "Uuml".as_bytes())
        || range_is(bytes, start, end, "VDash".as_bytes())
        || range_is(bytes, start, end, "Vbar".as_bytes())
        || range_is(bytes, start, end, "Vcy".as_bytes())
        || range_is(bytes, start, end, "Vdash".as_bytes())
        || range_is(bytes, start, end, "Vdashl".as_bytes())
        || range_is(bytes, start, end, "Vee".as_bytes())
        || range_is(bytes, start, end, "Verbar".as_bytes())
        || range_is(bytes, start, end, "Vert".as_bytes())
        || range_is(bytes, start, end, "VerticalBar".as_bytes())
        || range_is(bytes, start, end, "VerticalLine".as_bytes())
        || range_is(bytes, start, end, "VerticalSeparator".as_bytes())
        || range_is(bytes, start, end, "VerticalTilde".as_bytes())
        || range_is(bytes, start, end, "VeryThinSpace".as_bytes())
        || range_is(bytes, start, end, "Vfr".as_bytes())
        || range_is(bytes, start, end, "Vopf".as_bytes())
        || range_is(bytes, start, end, "Vscr".as_bytes())
        || range_is(bytes, start, end, "Vvdash".as_bytes())
        || range_is(bytes, start, end, "Wcirc".as_bytes())
        || range_is(bytes, start, end, "Wedge".as_bytes())
        || range_is(bytes, start, end, "Wfr".as_bytes())
        || range_is(bytes, start, end, "Wopf".as_bytes())
        || range_is(bytes, start, end, "Wscr".as_bytes())
        || range_is(bytes, start, end, "Xfr".as_bytes())
}

/// Whether the text is one of the names from `Xi` to `abreve`.
pub open spec fn named_23(text: Seq<u8>) -> bool {
    ||| text == "Xi".spec_bytes()
    ||| text == "Xopf".spec_bytes()
    ||| text == "Xscr".spec_bytes()
    ||| text == "YAcy".spec_bytes()
    ||| text == "YIcy".spec_bytes()
    ||| text == "YUcy".spec_bytes()
    ||| text == "Yacute".spec_bytes()
    ||| text == "Ycirc".spec_bytes()
    ||| text == "Ycy".spec_bytes()
    ||| text == "Yfr".spec_bytes()
    ||| text == "Yopf".spec_bytes()
    ||| text == "Yscr".spec_bytes()
    ||| text == "Yuml".spec_bytes()
    ||| text == "ZHcy".spec_bytes()
    ||| text == "Zacute".spec_bytes()
    ||| text == "Zcaron".spec_bytes()
    ||| text == "Zcy".spec_bytes()
    ||| text == "Zdot".spec_bytes()
    ||| text == "ZeroWidthSpace".spec_bytes()
    ||| text == "Zeta".spec_bytes()
    ||| text == "Zfr".spec_bytes()
    ||| text == "Zopf".spec_bytes()
    ||| text == "Zscr".spec_bytes()
    ||| text == "aacute".spec_bytes()
    ||| text == "abreve".spec_bytes()
}

/// Whether the bytes `start..end` are one of the names from `Xi` to
/// `abreve`.
fn is_named_23(bytes: &[u8], start: usize, end: usize) -> (is: bool)
    requires
        start <= end <= bytes.len(),
    ensures
        is == named_23(bytes@.subrange(start as int, end as int)),
{
    range_is(bytes, start, end, "Xi".as_bytes())
        || range_is(bytes, start, end, "Xopf".as_bytes())
        || range_is(bytes, start, end, "Xscr".as_bytes())
        || range_is(bytes, start, end, "YAcy".as_bytes())
        || range_is(bytes, start, end, "YIcy".as_bytes())
        || range_is(bytes, start, end, "YUcy".as_bytes())
        || range_is(bytes, start, end, "Yacute".as_bytes())
        || range_is(bytes, start, end, "Ycirc".as_bytes())
        || range_is(bytes, start, end, "Ycy".as_bytes())
        || range_is(bytes, start, end, "Yfr".as_bytes())
        || range_is(bytes, start, end, "Yopf".as_bytes())
        || range_is(bytes, start, end, "Yscr".as_bytes())
        || range_is(bytes, start, end, "Yuml".as_bytes())
        || range_is(bytes, start, end, "ZHcy".as_bytes())
        || range_is(bytes, start, end, "Zacute".as_bytes())
        || range_is(bytes, start, end, "Zcaron".as_bytes())
        || range_is(bytes, start, end, "Zcy".as_bytes())
        || range_is(bytes, start, end, "Zdot".as_bytes())
        || range_is(bytes, start, end, "ZeroWidthSpace".as_bytes())
        || range_is(bytes, start, end, "Zeta".as_bytes())
        || range_is(bytes, start, end, "Zfr".as_bytes())
        || range_is(bytes, start, end, "Zopf".as_bytes())
        || range_is(bytes, start, end, "Zscr".as_bytes())
        || range_is(bytes, start, end, "aacute".as_bytes())
        || range_is(bytes, start, end, "abreve".as_bytes())
}

/// Whether the text is one of the names from `ac` to `angmsd`.
pub open spec fn named_24(text: Seq<u8>) -> bool {
    ||| text == "ac".spec_bytes()
    ||| text == "acE".spec_bytes()
    ||| text == "acd".spec_bytes()
    ||| text == "acirc".spec_bytes()
    ||| text == "acute".spec_bytes()
    ||| text == "acy".spec_bytes()
    ||| text == "aelig".spec_bytes()
    ||| text == "af".spec_bytes()
    ||| text == "afr".spec_bytes()
    ||| text == "agrave".spec_bytes()
    ||| text == "alefsym".spec_bytes()
    ||| text == "aleph".spec_bytes()
    ||| text == "alpha".spec_bytes()
    ||| text == "amacr".spec_bytes()
    ||| text == "amalg".spec_bytes()
    ||| text == "amp".spec_bytes()
    ||| text == "and".spec_bytes()
    ||| text == "andand".spec_bytes()
    ||| text == "andd".spec_bytes()
    ||| text == "andslope".spec_bytes()
    ||| text == "andv".spec_bytes()
    ||| text == "ang".spec_bytes()
    ||| text == "ange".spec_bytes()
    ||| text == "angle".spec_bytes()
    ||| text == "angmsd".spec_bytes()
}

/// Whether the bytes `start..end` are one of the names from `ac` to
/// `angmsd`.
fn is_named_24(bytes: &[u8], start: usize, end: usize) -> (is: bool)
    requires
        start <= end <= bytes.len(),
    ensures
        is == named_24(bytes@.subrange(start as int, end as int)),
{
    range_is(bytes, start, end, "ac".as_bytes())
        || range_is(bytes, start, end, "acE".as_bytes())
        || range_is(bytes, start, end, "acd".as_bytes())
        || range_is(bytes, start, end, "acirc".as_bytes())
        || range_is(bytes, start, end, "acute".as_bytes())
        || range_is(bytes, start, end, "acy".as_bytes())
        || range_is(bytes, start, end, "aelig".as_bytes())
        || range_is(bytes, start, end, "af".as_bytes())
        || range_is(bytes, start, end, "afr".as_bytes())
        || range_is(bytes, start, end, "agrave".as_bytes())
        || range_is(bytes, start, end, "alefsym".as_bytes())
        || range_is(bytes, start, end, "aleph".as_bytes())
        || range_is(bytes, start, end, "alpha".as_bytes())
        || range_is(bytes, start, end, "amacr".as_bytes())
        || range_is(bytes, start, end, "amalg".as_bytes())
        || range_is(bytes, start, end, "amp".as_bytes())
        || range_is(bytes, start, end, "and".as_bytes())
        || range_is(bytes, start, end, "andand".as_bytes())
        || range_is(bytes, start, end, "andd".as_bytes())
        || range_is(bytes, start, end, "andslope".as_bytes())
        || range_is(bytes, start, end, "andv".as_bytes())
        || range_is(bytes, start, end, "ang".as_bytes())
        || range_is(bytes, start, end, "ange".as_bytes())
        || range_is(bytes, start, end, "angle".as_bytes())
        || range_is(bytes, start, end, "angmsd".as_bytes())
}

/// Whether the text is one of the names from `angmsdaa` to `aring`.
pub open spec fn named_25(text: Seq<u8>) -> bool {
    ||| text == "angmsdaa".spec_bytes()
    ||| text == "angmsdab".spec_bytes()
    ||| text == "angmsdac".spec_bytes()
    ||| text == "angmsdad".spec_bytes()
    ||| text == "angmsdae".spec_bytes()
    ||| text == "angmsdaf".spec_bytes()
    ||| text == "angmsdag".spec_bytes()
    ||| text == "angmsdah".spec_bytes()
    ||| text == "angrt".spec_bytes()
    ||| text == "angrtvb".spec_bytes()
    ||| text == "angrtvbd".spec_bytes()
    ||| text == "angsph".spec_bytes()
    ||| text == "angst".spec_bytes()
    ||| text == "angzarr".spec_bytes()
    ||| text == "aogon".spec_bytes()
    ||| text == "aopf".spec_bytes()
    ||| text == "ap".spec_bytes()
    ||| text == "apE".spec_bytes()
    ||| text == "apacir".spec_bytes()
    ||| text == "ape".spec_bytes()
    ||| text == "apid".spec_bytes()
    ||| text == "apos".spec_bytes()
    ||| text == "approx".spec_bytes()
    ||| text == "approxeq".spec_bytes()
    ||| text == "aring".spec_bytes()
}

/// Whether the bytes `start..end` are one of the names from `angmsdaa` to
/// `aring`.
fn is_named_25(bytes: &[u8], start: usize, end: usize) -> (is: bool)
    requires
        start <= end <= bytes.len(),
    ensures
        is == named_25(bytes@.subrange(start as int, end as int)),
{
    range_is(bytes, start, end, "angmsdaa".as_bytes())
        || range_is(bytes, start, end, "angmsdab".as_bytes())
        || range_is(bytes, start, end, "angmsdac".as_bytes())
        || range_is(bytes, start, end, "angmsdad".as_bytes())
        || range_is(bytes, start, end, "angmsdae".as_bytes())
        || range_is(bytes, start, end, "angmsdaf".as_bytes())
        || range_is(bytes, start, end, "angmsdag".as_bytes())
        || range_is(bytes, start, end, "angmsdah".as_bytes())
        || range_is(bytes, start, end, "angrt".as_bytes())
        || range_is(bytes, start, end, "angrtvb".as_bytes())
        || range_is(bytes, start, end, "angrtvbd".as_bytes())
        || range_is(bytes, start, end, "angsph".as_bytes())
        || range_is(bytes, start, end, "angst".as_bytes())
        || range_is(bytes, start, end, "angzarr".as_bytes())
        || range_is(bytes, start, end, "aogon".as_bytes())
        || range_is(bytes, start, end, "aopf".as_bytes())
        || range_is(bytes, start, end, "ap".as_bytes())
        || range_is(bytes, start, end, "apE".as_bytes())
        || range_is(bytes, start, end, "apacir".as_bytes())
        || range_is(bytes, start, end, "ape".as_bytes())
        || range_is(bytes, start, end, "apid".as_bytes())
        || range_is(bytes, start, end, "apos".as_bytes())
        || range_is(bytes, start, end, "approx".as_bytes())
        || range_is(bytes, start, end, "approxeq".as_bytes())
        || range_is(bytes, start, end, "aring".as_bytes())
}

/// Whether the text is one of the names from `ascr` to `bemptyv`.
pub open spec fn named_26(text: Seq<u8>) -> bool {
    ||| text == "ascr".spec_bytes()
    ||| text == "ast".spec_bytes()
    ||| text == "asymp".spec_bytes()
    ||| text == "asympeq".spec_bytes()
    ||| text == "atilde".spec_bytes()
    ||| text == "auml".spec_bytes()
    ||| text == "awconint".spec_bytes()
    ||| text == "awint".spec_bytes()
    ||| text == "bNot".spec_bytes()
    ||| text == "backcong".spec_bytes()
    ||| text == "backepsilon".spec_bytes()
    ||| text == "backprime".spec_bytes()
    ||| text == "backsim".spec_bytes()
    ||| text == "backsimeq".spec_bytes()
    ||| text == "barvee".spec_bytes()
    ||| text == "barwed".spec_bytes()
    ||| text == "barwedge".spec_bytes()
    ||| text == "bbrk".spec_bytes()
    ||| text == "bbrktbrk".spec_bytes()
    ||| text == "bcong".spec_bytes()
    ||| text == "bcy".spec_bytes()
    ||| text == "bdquo".spec_bytes()
    ||| text == "becaus".spec_bytes()
    ||| text == "because".spec_bytes()
    ||| text == "bemptyv".spec_bytes()
}

/// Whether the bytes `start..end` are one of the names from `ascr` to
/// `bemptyv`.
fn is_named_26(bytes: &[u8], start: usize, end: usize) -> (is: bool)
    requires
        start <= end <= bytes.len(),
    ensures
        is == named_26(bytes@.subrange(start as int, end as int)),
{
    range_is(bytes, start, end, "ascr".as_bytes())
        || range_is(bytes, start, end, "ast".as_bytes())
        || range_is(bytes, start, end, "asymp".as_bytes())
        || range_is(bytes, start, end, "asympeq".as_bytes())
        || range_is(bytes, start, end, "atilde".as_bytes())
        || range_is(bytes, start, end, "auml".as_bytes())
        || range_is(bytes, start, end, "awconint".as_bytes())
        || range_is(bytes, start, end, "awint".as_bytes())
        || range_is(bytes, start, end, "bNot".as_bytes())
        || range_is(bytes, start, end, "backcong".as_bytes())
        || range_is(bytes, start, end, "backepsilon".as_bytes())
        || range_is(bytes, start, end, "backprime".as_bytes())
        || range_is(bytes, start, end, "backsim".as_bytes())
        || range_is(bytes, start, end, "backsimeq".as_bytes())
        || range_is(bytes, start, end, "barvee".as_bytes())
        || range_is(bytes, start, end, "barwed".as_bytes())
        || range_is(bytes, start, end, "barwedge".as_bytes())
        || range_is(bytes, start, end, "bbrk".as_bytes())
        || range_is(bytes, start, end, "bbrktbrk".as_bytes())
        || range_is(bytes, start, end, "bcong".as_bytes())
        || range_is(bytes, start, end, "bcy".as_bytes())
        || range_is(bytes, start, end, "bdquo".as_bytes())
        || range_is(bytes, start, end, "becaus".as_bytes())
        || range_is(bytes, start, end, "because".as_bytes())
        || range_is(bytes, start, end, "bemptyv".as_bytes())
}

/// Whether the text is one of the names from `bepsi` to `blacktriangleleft`.
pub open spec fn named_27(text: Seq<u8>) -> bool {
    ||| text == "bepsi".spec_bytes()
    ||| text == "bernou".spec_bytes()
    ||| text == "beta".spec_bytes()
    ||| text == "beth".spec_bytes()
    ||| text == "between".spec_bytes()
    ||| text == "bfr".spec_bytes()
    ||| text == "bigcap".spec_bytes()
    ||| text == "bigcirc".spec_bytes()
    ||| text == "bigcup".spec_bytes()
    ||| text == "bigodot".spec_bytes()
    ||| text == "bigoplus".spec_bytes()
    ||| text == "bigotimes".spec_bytes()
    ||| text == "bigsqcup".spec_bytes()
    ||| text == "bigstar".spec_bytes()
    ||| text == "bigtriangledown".spec_bytes()
    ||| text == "bigtriangleup".spec_bytes()
    ||| text == "biguplus".spec_bytes()
    ||| text == "bigvee".spec_bytes()
    ||| text == "bigwedge".spec_bytes()
    ||| text == "bkarow".spec_bytes()
    ||| text == "blacklozenge".spec_bytes()
    ||| text == "blacksquare".spec_bytes()
    ||| text == "blacktriangle".spec_bytes()
    ||| text == "blacktriangledown".spec_bytes()
    ||| text == "blacktriangleleft".spec_bytes()
}

/// Whether the bytes `start..end` are one of the names from `bepsi` to
/// `blacktriangleleft`.
fn is_named_27(bytes: &[u8], start: usize, end: usize) -> (is: bool)
    requires
        start <= end <= bytes.len(),
    ensures
        is == named_27(bytes@.subrange(start as int, end as int)),
{
    range_is(bytes, start, end, "bepsi".as_bytes())
        || range_is(bytes, start, end, "bernou".as_bytes())
        || range_is(bytes, start, end, "beta".as_bytes())
        || range_is(bytes, start, end, "beth".as_bytes())
        || range_is(bytes, start, end, "between".as_bytes())
        || range_is(bytes, start, end, "bfr".as_bytes())
        || range_is(bytes, start, end, "bigcap".as_bytes())
        || range_is(bytes, start, end, "bigcirc".as_bytes())
        || range_is(bytes, start, end, "bigcup".as_bytes())
        || range_is(bytes, start, end, "bigodot".as_bytes())
        || range_is(bytes, start, end, "bigoplus".as_bytes())
        || range_is(bytes, start, end, "bigotimes".as_bytes())
        || range_is(bytes, start, end, "bigsqcup".as_bytes())
        || range_is(bytes, start, end, "bigstar".as_bytes())
        || range_is(bytes, start, end, "bigtriangledown".as_bytes())
        || range_is(bytes, start, end, "bigtriangleup".as_bytes())
        || range_is(bytes, start, end, "biguplus".as_bytes())
        || range_is(bytes, start, end, "bigvee".as_bytes())
        || range_is(bytes, start, end, "bigwedge".as_bytes())
        || range_is(bytes, start, end, "bkarow".as_bytes())
        || range_is(bytes, start, end, "blacklozenge".as_bytes())
        || range_is(bytes, start, end, "blacksquare".as_bytes())
        || range_is(bytes, start, end, "blacktriangle".as_bytes())
        || range_is(bytes, start, end, "blacktriangledown".as_bytes())
        || range_is(bytes, start, end, "blacktriangleleft".as_bytes())
}

/// Whether the text is one of the names from `blacktriangleright` to `boxUl`.
pub open spec fn named_28(text: Seq<u8>) -> bool {
    ||| text == "blacktriangleright".spec_bytes()
    ||| text == "blank".spec_bytes()
    ||| text == "blk12".spec_bytes()
    ||| text == "blk14".spec_bytes()
    ||| text == "blk34".spec_bytes()
    ||| text == "block".spec_bytes()
    ||| text == "bne".spec_bytes()
    ||| text == "bnequiv".spec_bytes()
    ||| text == "bnot".spec_bytes()
    ||| text == "bopf".spec_bytes()
    ||| text == "bot".spec_bytes()
    ||| text == "bottom".spec_bytes()
    ||| text == "bowtie".spec_bytes()
    ||| text == "boxDL".spec_bytes()
    ||| text == "boxDR".spec_bytes()
    ||| text == "boxDl".spec_bytes()
    ||| text == "boxDr".spec_bytes()
    ||| text == "boxH".spec_bytes()
    ||| text == "boxHD".spec_bytes()
    ||| text == "boxHU".spec_bytes()
    ||| text == "boxHd".spec_bytes()
    ||| text == "boxHu".spec_bytes()
    ||| text == "boxUL".spec_bytes()
    ||| text == "boxUR".spec_bytes()
    ||| text == "boxUl".spec_bytes()
}

/// Whether the bytes `start..end` are one of the names from `blacktriangleright` to
/// `boxUl`.
fn is_named_28(bytes: &[u8], start: usize, end: usize) -> (is: bool)
    requires
        start <= end <= bytes.len(),
    ensures
        is == named_28(bytes@.subrange(start as int, end as int)),
{
    range_is(bytes, start, end, "blacktriangleright".as_bytes())
        || range_is(bytes, start, end, "blank".as_bytes())
        || range_is(bytes, start, end, "blk12".as_bytes())
        || range_is(bytes, start, end, "blk14".as_bytes())
        || range_is(bytes, start, end, "blk34".as_bytes())
        || range_is(bytes, start, end, "block".as_bytes())
        || range_is(bytes, start, end, "bne".as_bytes())
        || range_is(bytes, start, end, "bnequiv".as_bytes())
        || range_is(bytes, start, end, "bnot".as_bytes())
        || range_is(bytes, start, end, "bopf".as_bytes())
        || range_is(bytes, start, end, "bot".as_bytes())
        || range_is(bytes, start, end, "bottom".as_bytes())
        || range_is(bytes, start, end, "bowtie".as_bytes())
        || range_is(bytes, start, end, "boxDL".as_bytes())
        || range_is(bytes, start, end, "boxDR".as_bytes())
        || range_is(bytes, start, end, "boxDl".as_bytes())
        || range_is(bytes, start, end, "boxDr".as_bytes())
        || range_is(bytes, start, end, "boxH".as_bytes())
        || range_is(bytes, start, end, "boxHD".as_bytes())
        || range_is(bytes, start, end, "boxHU".as_bytes())
        || range_is(bytes, start, end, "boxHd".as_bytes())
        || range_is(bytes, start, end, "boxHu".as_bytes())
        || range_is(bytes, start, end, "boxUL".as_bytes())
        || range_is(bytes, start, end, "boxUR".as_bytes())
        || range_is(bytes, start, end, "boxUl".as_bytes())
}

/// Whether the text is one of the names from `boxUr` to `boxur`.
pub open spec fn named_29(text: Seq<u8>) -> bool {
    ||| text == "boxUr".spec_bytes()
    ||| text == "boxV".spec_bytes()
    ||| text == "boxVH".spec_bytes()
    ||| text == "boxVL".spec_bytes()
    ||| text == "boxVR".spec_bytes()
    ||| text == "boxVh".spec_bytes()
    ||| text == "boxVl".spec_bytes()
    ||| text == "boxVr".spec_bytes()
    ||| text == "boxbox".spec_bytes()
    ||| text == "boxdL".spec_bytes()
    ||| text == "boxdR".spec_bytes()
    ||| text == "boxdl".spec_bytes()
    ||| text == "boxdr".spec_bytes()
    ||| text == "boxh".spec_bytes()
    ||| text == "boxhD".spec_bytes()
    ||| text == "boxhU".spec_bytes()
    ||| text == "boxhd".spec_bytes()
    ||| text == "boxhu".spec_bytes()
    ||| text == "boxminus".spec_bytes()
    ||| text == "boxplus".spec_bytes()
    ||| text == "boxtimes".spec_bytes()
    ||| text == "boxuL".spec_bytes()
    ||| text == "boxuR".spec_bytes()
    ||| text == "boxul".spec_bytes()
    ||| text == "boxur".spec_bytes()
}

/// Whether the bytes `start..end` are one of the names from `boxUr` to
/// `boxur`.
fn is_named_29(bytes: &[u8], start: usize, end: usize) -> (is: bool)
    requires
        start <= end <= bytes.len(),
    ensures
        is == named_29(bytes@.subrange(start as int, end as int)),
{
    range_is(bytes, start, end, "boxUr".as_bytes())
        || range_is(bytes, start, end, "boxV".as_bytes())
        || range_is(bytes, start, end, "boxVH".as_bytes())
        || range_is(bytes, start, end, "boxVL".as_bytes())
        || range_is(bytes, start, end, "boxVR".as_bytes())
        || range_is(bytes, start, end, "boxVh".as_bytes())
        || range_is(bytes, start, end, "boxVl".as_bytes())
        || range_is(bytes, start, end, "boxVr".as_bytes())
        || range_is(bytes, start, end, "boxbox".as_bytes())
        || range_is(bytes, start, end, "boxdL".as_bytes())
        || range_is(bytes, start, end, "boxdR".as_bytes())
        || range_is(bytes, start, end, "boxdl".as_bytes())
        || range_is(bytes, start, end, "boxdr".as_bytes())
        || range_is(bytes, start, end, "boxh".as_bytes())
        || range_is(bytes, start, end, "boxhD".as_bytes())
        || range_is(bytes, start, end, "boxhU".as_bytes())
        || range_is(bytes, start, end, "boxhd".as_bytes())
        || range_is(bytes, start, end, "boxhu".as_bytes())
        || range_is(bytes, start, end, "boxminus".as_bytes())
        || range_is(bytes, start, end, "boxplus".as_bytes())
        || range_is(bytes, start, end, "boxtimes".as_bytes())
        || range_is(bytes, start, end, "boxuL".as_bytes())
        || range_is(bytes, start, end, "boxuR".as_bytes())
        || range_is(bytes, start, end, "boxul".as_bytes())
        || range_is(bytes, start, end, "boxur".as_bytes())
}

/// Whether the text is one of the names from `boxv` to `cap`.
pub open spec fn named_30(text: Seq<u8>) -> bool {
    ||| text == "boxv".spec_bytes()
    ||| text == "boxvH".spec_bytes()
    ||| text == "boxvL".spec_bytes()
    ||| text == "boxvR".spec_bytes()
    ||| text == "boxvh".spec_bytes()
    ||| text == "boxvl".spec_bytes()
    ||| text == "boxvr".spec_bytes()
    ||| text == "bprime".spec_bytes()
    ||| text == "breve".spec_bytes()
    ||| text == "brvbar".spec_bytes()
    ||| text == "bscr".spec_bytes()
    ||| text == "bsemi".spec_bytes()
    ||| text == "bsim".spec_bytes()
    ||| text == "bsime".spec_bytes()
    ||| text == "bsol".spec_bytes()
    ||| text == "bsolb".spec_bytes()
    ||| text == "bsolhsub".spec_bytes()
    ||| text == "bull".spec_bytes()
    ||| text == "bullet".spec_bytes()
    ||| text == "bump".spec_bytes()
    ||| text == "bumpE".spec_bytes()
    ||| text == "bumpe".spec_bytes()
    ||| text == "bumpeq".spec_bytes()
    ||| text == "cacute".spec_bytes()
    ||| text == "cap".spec_bytes()
}

/// Whether the bytes `start..end` are one of the names from `boxv` to
/// `cap`.
fn is_named_30(bytes: &[u8], start: usize, end: usize) -> (is: bool)
    requires
        start <= end <= bytes.len(),
    ensures
        is == named_30(bytes@.subrange(start as int, end as int)),
{
    range_is(bytes, start, end, "boxv".as_bytes())
        || range_is(bytes, start, end, "boxvH".as_bytes())
        || range_is(bytes, start, end, "boxvL".as_bytes())
        || range_is(bytes, start, end, "boxvR".as_bytes())
        || range_is(bytes, start, end, "boxvh".as_bytes())
        || range_is(bytes, start, end, "boxvl".as_bytes())
        || range_is(bytes, start, end, "boxvr".as_bytes())
        || range_is(bytes, start, end, "bprime".as_bytes())
        || range_is(bytes, start, end, "breve".as_bytes())
        || range_is(bytes, start, end, "brvbar".as_bytes())
        || range_is(bytes, start, end, "bscr".as_bytes())
        || range_is(bytes, start, end, "bsemi".as_bytes())
        || range_is(bytes, start, end, "bsim".as_bytes())
        || range_is(bytes, start, end, "bsime".as_bytes())
        || range_is(bytes, start, end, "bsol".as_bytes())
        || range_is(bytes, start, end, "bsolb".as_bytes())
        || range_is(bytes, start, end, "bsolhsub".as_bytes())
        || range_is(bytes, start, end, "bull".as_bytes())
        || range_is(bytes, start, end, "bullet".as_bytes())
        || range_is(bytes, start, end, "bump".as_bytes())
        || range_is(bytes, start, end, "bumpE".as_bytes())
        || range_is(bytes, start, end, "bumpe".as_bytes())
        || range_is(bytes, start, end, "bumpeq".as_bytes())
        || range_is(bytes, start, end, "cacute".as_bytes())
        || range_is(bytes, start, end, "cap".as_bytes())
}

/// Whether the text is one of the names from `capand` to `cir`.
pub open spec fn named_31(text: Seq<u8>) -> bool {
    ||| text == "capand".spec_bytes()
    ||| text == "capbrcup".spec_bytes()
    ||| text == "capcap".spec_bytes()
    ||| text == "capcup".spec_bytes()
    ||| text == "capdot".spec_bytes()
    ||| text == "caps".spec_bytes()
    ||| text == "caret".spec_bytes()
    ||| text == "caron".spec_bytes()
    ||| text == "ccaps".spec_bytes()
    ||| text == "ccaron".spec_bytes()
    ||| text == "ccedil".spec_bytes()
    ||| text == "ccirc".spec_bytes()
    ||| text == "ccups".spec_bytes()
    ||| text == "ccupssm".spec_bytes()
    ||| text == "cdot".spec_bytes()
    ||| text == "cedil".spec_bytes()
    ||| text == "cemptyv".spec_bytes()
    ||| text == "cent".spec_bytes()
    ||| text == "centerdot".spec_bytes()
    ||| text == "cfr".spec_bytes()
    ||| text == "chcy".spec_bytes()
    ||| text == "check".spec_bytes()
    ||| text == "checkmark".spec_bytes()
    ||| text == "chi".spec_bytes()
    ||| text == "cir".spec_bytes()
}

/// Whether the bytes `start..end` are one of the names from `capand` to
/// `cir`.
fn is_named_31(bytes: &[u8], start: usize, end: usize) -> (is: bool)
    requires
        start <= end <= bytes.len(),
    ensures
        is == named_31(bytes@.subrange(start as int, end as int)),
{
    range_is(bytes, start, end, "capand".as_bytes())
        || range_is(bytes, start, end, "capbrcup".as_bytes())
        || range_is(bytes, start, end, "capcap".as_bytes())
        || range_is(bytes, start, end, "capcup".as_bytes())
        || range_is(bytes, start, end, "capdot".as_bytes())
        || range_is(bytes, start, end, "caps".as_bytes())
        || range_is(bytes, start, end, "caret".as_bytes())
        || range_is(bytes, start, end, "caron".as_bytes())
        || range_is(bytes, start, end, "ccaps".as_bytes())
        || range_is(bytes, start, end, "ccaron".as_bytes())
        || range_is(bytes, start, end, "ccedil".as_bytes())
        || range_is(bytes, start, end, "ccirc".as_bytes())
        || range_is(bytes, start, end, "ccups".as_bytes())
        || range_is(bytes, start, end, "ccupssm".as_bytes())
        || range_is(bytes, start, end, "cdot".as_bytes())
        || range_is(bytes, start, end, "cedil".as_bytes())
        || range_is(bytes, start, end, "cemptyv".as_bytes())
        || range_is(bytes, start, end, "cent".as_bytes())
        || range_is(bytes, start, end, "centerdot".as_bytes())
        || range_is(bytes, start, end, "cfr".as_bytes())
        || range_is(bytes, start, end, "chcy".as_bytes())
        || range_is(bytes, start, end, "check".as_bytes())
        || range_is(bytes, start, end, "checkmark".as_bytes())
        || range_is(bytes, start, end, "chi".as_bytes())
        || range_is(bytes, start, end, "cir".as_bytes())
}

/// Whether the text is one of the names from `cirE` to `complexes`.
pub open spec fn named_32(text: Seq<u8>) -> bool {
    ||| text == "cirE".spec_bytes()
    ||| text == "circ".spec_bytes()
    ||| text == "circeq".spec_bytes()
    ||| text == "circlearrowleft".spec_bytes()
    ||| text == "circlearrowright".spec_bytes()
    ||| text == "circledR".spec_bytes()
    ||| text == "circledS".spec_bytes()
    ||| text == "circledast".spec_bytes()
    ||| text == "circledcirc".spec_bytes()
    ||| text == "circleddash".spec_bytes()
    ||| text == "cire".spec_bytes()
    ||| text == "cirfnint".spec_bytes()
    ||| text == "cirmid".spec_bytes()
    ||| text == "cirscir".spec_bytes()
    ||| text == "clubs".spec_bytes()
    ||| text == "clubsuit".spec_bytes()
    ||| text == "colon".spec_bytes()
    ||| text == "colone".spec_bytes()
    ||| text == "coloneq".spec_bytes()
    ||| text == "comma".spec_bytes()
    ||| text == "commat".spec_bytes()
    ||| text == "comp".spec_bytes()
    ||| text == "compfn".spec_bytes()
    ||| text == "complement".spec_bytes()
    ||| text == "complexes".spec_bytes()
}

/// Whether the bytes `start..end` are one of the names from `cirE` to
/// `complexes`.
fn is_named_32(bytes: &[u8], start: usize, end: usize) -> (is: bool)
    requires
        start <= end <= bytes.len(),
    ensures
        is == named_32(bytes@.subrange(start as int, end as int)),
{
    range_is(bytes, start, end, "cirE".as_bytes())
        || range_is(bytes, start, end, "circ".as_bytes())
        || range_is(bytes, start, end, "circeq".as_bytes())
        || range_is(bytes, start, end, "circlearrowleft".as_bytes())
        || range_is(bytes, start, end, "circlearrowright".as_bytes())
        || range_is(bytes, start, end, "circledR".as_bytes())
        || range_is(bytes, start, end, "circledS".as_bytes())
        || range_is(bytes, start, end, "circledast".as_bytes())
        || range_is(bytes, start, end, "circledcirc".as_bytes())
        || range_is(bytes, start, end, "circleddash".as_bytes())
        || range_is(bytes, start, end, "cire".as_bytes())
        || range_is(bytes, start, end, "cirfnint".as_bytes())
        || range_is(bytes, start, end, "cirmid".as_bytes())
        || range_is(bytes, start, end, "cirscir".as_bytes())
        || range_is(bytes, start, end, "clubs".as_bytes())
        || range_is(bytes, start, end, "clubsuit".as_bytes())
        || range_is(bytes, start, end, "colon".as_bytes())
        || range_is(bytes, start, end, "colone".as_bytes())
        || range_is(bytes, start, end, "coloneq".as_bytes())
        || range_is(bytes, start, end, "comma".as_bytes())
        || range_is(bytes, start, end, "commat".as_bytes())
        || range_is(bytes, start, end, "comp".as_bytes())
        || range_is(bytes, start, end, "compfn".as_bytes())
        || range_is(bytes, start, end, "complement".as_bytes())
        || range_is(bytes, start, end, "complexes".as_bytes())
}

/// Whether the text is one of the names from `cong` to `cupcup`.
pub open spec fn named_33(text: Seq<u8>) -> bool {
    ||| text == "cong".spec_bytes()
    ||| text == "congdot".spec_bytes()
    ||| text == "conint".spec_bytes()
    ||| text == "copf".spec_bytes()
    ||| text == "coprod".spec_bytes()
    ||| text == "copy".spec_bytes()
    ||| text == "copysr".spec_bytes()
    ||| text == "crarr".spec_bytes()
    ||| text == "cross".spec_bytes()
    ||| text == "cscr".spec_bytes()
    ||| text == "csub".spec_bytes()
    ||| text == "csube".spec_bytes()
    ||| text == "csup".spec_bytes()
    ||| text == "csupe".spec_bytes()
    ||| text == "ctdot".spec_bytes()
    ||| text == "cudarrl".spec_bytes()
    ||| text == "cudarrr".spec_bytes()
    ||| text == "cuepr".spec_bytes()
    ||| text == "cuesc".spec_bytes()
    ||| text == "cularr".spec_bytes()
    ||| text == "cularrp".spec_bytes()
    ||| text == "cup".spec_bytes()
    ||| text == "cupbrcap".spec_bytes()
    ||| text == "cupcap".spec_bytes()
    ||| text == "cupcup".spec_bytes()
}

/// Whether the bytes `start..end` are one of the names from `cong` to
/// `cupcup`.
fn is_named_33(bytes: &[u8], start: usize, end: usize) -> (is: bool)
    requires
        start <= end <= bytes.len(),
    ensures
        is == named_33(bytes@.subrange(start as int, end as int)),
{
    range_is(bytes, start, end, "cong".as_bytes())
        || range_is(bytes, start, end, "congdot".as_bytes())
        || range_is(bytes, start, end, "conint".as_bytes())
        || range_is(bytes, start, end, "copf".as_bytes())
        || range_is(bytes, start, end, "coprod".as_bytes())
        || range_is(bytes, start, end, "copy".as_bytes())
        || range_is(bytes, start, end, "copysr".as_bytes())
        || range_is(bytes, start, end, "crarr".as_bytes())
        || range_is(bytes, start, end, "cross".as_bytes())
        || range_is(bytes, start, end, "cscr".as_bytes())
        || range_is(bytes, start, end, "csub".as_bytes())
        || range_is(bytes, start, end, "csube".as_bytes())
        || range_is(bytes, start, end, "csup".as_bytes())
        || range_is(bytes, start, end, "csupe".as_bytes())
        || range_is(bytes, start, end, "ctdot".as_bytes())
        || range_is(bytes, start, end, "cudarrl".as_bytes())
        || range_is(bytes, start, end, "cudarrr".as_bytes())
        || range_is(bytes, start, end, "cuepr".as_bytes())
        || range_is(bytes, start, end, "cuesc".as_bytes())
        || range_is(bytes, start, end, "cularr".as_bytes())
        || range_is(bytes, start, end, "cularrp".as_bytes())
        || range_is(bytes, start, end, "cup".as_bytes())
        || range_is(bytes, start, end, "cupbrcap".as_bytes())
        || range_is(bytes, start, end, "cupcap".as_bytes())
        || range_is(bytes, start, end, "cupcup".as_bytes())
}

/// Whether the text is one of the names from `cupdot` to `dbkarow`.
pub open spec fn named_34(text: Seq<u8>) -> bool {
    ||| text == "cupdot".spec_bytes()
    ||| text == "cupor".spec_bytes()
    ||| text == "cups".spec_bytes()
    ||| text == "curarr".spec_bytes()
    ||| text == "curarrm".spec_bytes()
    ||| text == "curlyeqprec".spec_bytes()
    ||| text == "curlyeqsucc".spec_bytes()
    ||| text == "curlyvee".spec_bytes()
    ||| text == "curlywedge".spec_bytes()
    ||| text == "curren".spec_bytes()
    ||| text == "curvearrowleft".spec_bytes()
    ||| text == "curvearrowright".spec_bytes()
    ||| text == "cuvee".spec_bytes()
    ||| text == "cuwed".spec_bytes()
    ||| text == "cwconint".spec_bytes()
    ||| text == "cwint".spec_bytes()
    ||| text == "cylcty".spec_bytes()
    ||| text == "dArr".spec_bytes()
    ||| text == "dHar".spec_bytes()
    ||| text == "dagger".spec_bytes()
    ||| text == "daleth".spec_bytes()
    ||| text == "darr".spec_bytes()
    ||| text == "dash".spec_bytes()
    ||| text == "dashv".spec_bytes()
    ||| text == "dbkarow".spec_bytes()
}

/// Whether the bytes `start..end` are one of the names from `cupdot` to
/// `dbkarow`.
fn is_named_34(bytes: &[u8], start: usize, end: usize) -> (is: bool)
    requires
        start <= end <= bytes.len(),
    ensures
        is == named_34(bytes@.subrange(start as int, end as int)),
{
    range_is(bytes, start, end, "cupdot".as_bytes())
        || range_is(bytes, start, end, "cupor".as_bytes())
        || range_is(bytes, start, end, "cups".as_bytes())
        || range_is(bytes, start, end, "curarr".as_bytes())
        || range_is(bytes, start, end, "curarrm".as_bytes())
        || range_is(bytes, start, end, "curlyeqprec".as_bytes())
        || range_is(bytes, start, end, "curlyeqsucc".as_bytes())
        || range_is(bytes, start, end, "curlyvee".as_bytes())
        || range_is(bytes, start, end, "curlywedge".as_bytes())
        || range_is(bytes, start, end, "curren".as_bytes())
        || range_is(bytes, start, end, "curvearrowleft".as_bytes())
        || range_is(bytes, start, end, "curvearrowright".as_bytes())
        || range_is(bytes, start, end, "cuvee".as_bytes())
        || range_is(bytes, start, end, "cuwed".as_bytes())
        || range_is(bytes, start, end, "cwconint".as_bytes())
        || range_is(bytes, start, end, "cwint".as_bytes())
        || range_is(bytes, start, end, "cylcty".as_bytes())
        || range_is(bytes, start, end, "dArr".as_bytes())
        || range_is(bytes, start, end, "dHar".as_bytes())
        || range_is(bytes, start, end, "dagger".as_bytes())
        || range_is(bytes, start, end, "daleth".as_bytes())
        || range_is(bytes, start, end, "darr".as_bytes())
        || range_is(bytes, start, end, "dash".as_bytes())
        || range_is(bytes, start, end, "dashv".as_bytes())
        || range_is(bytes, start, end, "dbkarow".as_bytes())
}

/// Whether the text is one of the names from `dblac` to `divonx`.
pub open spec fn named_35(text: Seq<u8>) -> bool {
    ||| text == "dblac".spec_bytes()
    ||| text == "dcaron".spec_bytes()
    ||| text == "dcy".spec_bytes()
    ||| text == "dd".spec_bytes()
    ||| text == "ddagger".spec_bytes()
    ||| text == "ddarr".spec_bytes()
    ||| text == "ddotseq".spec_bytes()
    ||| text == "deg".spec_bytes()
    ||| text == "delta".spec_bytes()
    ||| text == "demptyv".spec_bytes()
    ||| text == "dfisht".spec_bytes()
    ||| text == "dfr".spec_bytes()
    ||| text == "dharl".spec_bytes()
    ||| text == "dharr".spec_bytes()
    ||| text == "diam".spec_bytes()
    ||| text == "diamond".spec_bytes()
    ||| text == "diamondsuit".spec_bytes()
    ||| text == "diams".spec_bytes()
    ||| text == "die".spec_bytes()
    ||| text == "digamma".spec_bytes()
    ||| text == "disin".spec_bytes()
    ||| text == "div".spec_bytes()
    ||| text == "divide".spec_bytes()
    ||| text == "divideontimes".spec_bytes()
    ||| text == "divonx".spec_bytes()
}

/// Whether the bytes `start..end` are one of the names from `dblac` to
/// `divonx`.
fn is_named_35(bytes: &[u8], start: usize, end: usize) -> (is: bool)
    requires
        start <= end <= bytes.len(),
    ensures
        is == named_35(bytes@.subrange(start as int, end as int)),
{
    range_is(bytes, start, end, "dblac".as_bytes())
        || range_is(bytes, start, end, "dcaron".as_bytes())
        || range_is(bytes, start, end, "dcy".as_bytes())
        || range_is(bytes, start, end, "dd".as_bytes())
        || range_is(bytes, start, end, "ddagger".as_bytes())
        || range_is(bytes, start, end, "ddarr".as_bytes())
        || range_is(bytes, start, end, "ddotseq".as_bytes())
        || range_is(bytes, start, end, "deg".as_bytes())
        || range_is(bytes, start, end, "delta".as_bytes())
        || range_is(bytes, start, end, "demptyv".as_bytes())
        || range_is(bytes, start, end, "dfisht".as_bytes())
        || range_is(bytes, start, end, "dfr".as_bytes())
        || range_is(bytes, start, end, "dharl".as_bytes())
        || range_is(bytes, start, end, "dharr".as_bytes())
        || range_is(bytes, start, end, "diam".as_bytes())
        || range_is(bytes, start, end, "diamond".as_bytes())
        || range_is(bytes, start, end, "diamondsuit".as_bytes())
        || range_is(bytes, start, end, "diams".as_bytes())
        || range_is(bytes, start, end, "die".as_bytes())
        || range_is(bytes, start, end, "digamma".as_bytes())
        || range_is(bytes, start, end, "disin".as_bytes())
        || range_is(bytes, start, end, "div".as_bytes())
        || range_is(bytes, start, end, "divide".as_bytes())
        || range_is(bytes, start, end, "divideontimes".as_bytes())
        || range_is(bytes, start, end, "divonx".as_bytes())
}

/// Whether the text is one of the names from `djcy` to `dtri`.
pub open spec fn named_36(text: Seq<u8>) -> bool {
    ||| text == "djcy".spec_bytes()
    ||| text == "dlcorn".spec_bytes()
    ||| text == "dlcrop".spec_bytes()
    ||| text == "dollar".spec_bytes()
    ||| text == "dopf".spec_bytes()
    ||| text == "dot".spec_bytes()
    ||| text == "doteq".spec_bytes()
    ||| text == "doteqdot".spec_bytes()
    ||| text == "dotminus".spec_bytes()
    ||| text == "dotplus".spec_bytes()
    ||| text == "dotsquare".spec_bytes()
    ||| text == "doublebarwedge".spec_bytes()
    ||| text == "downarrow".spec_bytes()
    ||| text == "downdownarrows".spec_bytes()
    ||| text == "downharpoonleft".spec_bytes()
    ||| text == "downharpoonright".spec_bytes()
    ||| text == "drbkarow".spec_bytes()
    ||| text == "drcorn".spec_bytes()
    ||| text == "drcrop".spec_bytes()
    ||| text == "dscr".spec_bytes()
    ||| text == "dscy".spec_bytes()
    ||| text == "dsol".spec_bytes()
    ||| text == "dstrok".spec_bytes()
    ||| text == "dtdot".spec_bytes()
    ||| text == "dtri".spec_bytes()
}

/// Whether the bytes `start..end` are one of the names from `djcy` to
/// `dtri`.
fn is_named_36(bytes: &[u8], start: usize, end: usize) -> (is: bool)
    requires
        start <= end <= bytes.len(),
    ensures
        is == named_36(bytes@.subrange(start as int, end as int)),
{
    range_is(bytes, start, end, "djcy".as_bytes())
        || range_is(bytes, start, end, "dlcorn".as_bytes())
        || range_is(bytes, start, end, "dlcrop".as_bytes())
        || range_is(bytes, start, end, "dollar".as_bytes())
        || range_is(bytes, start, end, "dopf".as_bytes())
        || range_is(bytes, start, end, "dot".as_bytes())
        || range_is(bytes, start, end, "doteq".as_bytes())
        || range_is(bytes, start, end, "doteqdot".as_bytes())
        || range_is(bytes, start, end, "dotminus".as_bytes())
        || range_is(bytes, start, end, "dotplus".as_bytes())
        || range_is(bytes, start, end, "dotsquare".as_bytes())
        || range_is(bytes, start, end, "doublebarwedge".as_bytes())
        || range_is(bytes, start, end, "downarrow".as_bytes())
        || range_is(bytes, start, end, "downdownarrows".as_bytes())
        || range_is(bytes, start, end, "downharpoonleft".as_bytes())
        || range_is(bytes, start, end, "downharpoonright".as_bytes())
        || range_is(bytes, start, end, "drbkarow".as_bytes())
        || range_is(bytes, start, end, "drcorn".as_bytes())
        || range_is(bytes, start, end, "drcrop".as_bytes())
        || range_is(bytes, start, end, "dscr".as_bytes())
        || range_is(bytes, start, end, "dscy".as_bytes())
        || range_is(bytes, start, end, "dsol".as_bytes())
        || range_is(bytes, start, end, "dstrok".as_bytes())
        || range_is(bytes, start, end, "dtdot".as_bytes())
        || range_is(bytes, start, end, "dtri".as_bytes())
}

/// Whether the text is one of the names from `dtrif` to `elinters`.
pub open spec fn named_37(text: Seq<u8>) -> bool {
    ||| text == "dtrif".spec_bytes()
    ||| text == "duarr".spec_bytes()
    ||| text == "duhar".spec_bytes()
    ||| text == "dwangle".spec_bytes()
    ||| text == "dzcy".spec_bytes()
    ||| text == "dzigrarr".spec_bytes()
    ||| text == "eDDot".spec_bytes()
    ||| text == "eDot".spec_bytes()
    ||| text == "eacute".spec_bytes()
    ||| text == "easter".spec_bytes()
    ||| text == "ecaron".spec_bytes()
    ||| text == "ecir".spec_bytes()
    ||| text == "ecirc".spec_bytes()
    ||| text == "ecolon".spec_bytes()
    ||| text == "ecy".spec_bytes()
    ||| text == "edot".spec_bytes()
    ||| text == "ee".spec_bytes()
    ||| text == "efDot".spec_bytes()
    ||| text == "efr".spec_bytes()
    ||| text == "eg".spec_bytes()
    ||| text == "egrave".spec_bytes()
    ||| text == "egs".spec_bytes()
    ||| text == "egsdot".spec_bytes()
    ||| text == "el".spec_bytes()
    ||| text == "elinters".spec_bytes()
}

/// Whether the bytes `start..end` are one of the names from `dtrif` to
/// `elinters`.
fn is_named_37(bytes: &[u8], start: usize, end: usize) -> (is: bool)
    requires
        start <= end <= bytes.len(),
    ensures
        is == named_37(bytes@.subrange(start as int, end as int)),
{
    range_is(bytes, start, end, "dtrif".as_bytes())
        || range_is(bytes, start, end, "duarr".as_bytes())
        || range_is(bytes, start, end, "duhar".as_bytes())
        || range_is(bytes, start, end, "dwangle".as_bytes())
        || range_is(bytes, start, end, "dzcy".as_bytes())
        || range_is(bytes, start, end, "dzigrarr".as_bytes())
        || range_is(bytes, start, end, "eDDot".as_bytes())
        || range_is(bytes, start, end, "eDot".as_bytes())
        || range_is(bytes, start, end, "eacute".as_bytes())
        || range_is(bytes, start, end, "easter".as_bytes())
        || range_is(bytes, start, end, "ecaron".as_bytes())
        || range_is(bytes, start, end, "ecir".as_bytes())
        || range_is(bytes, start, end, "ecirc".as_bytes())
        || range_is(bytes, start, end, "ecolon".as_bytes())
        || range_is(bytes, start, end, "ecy".as_bytes())
        || range_is(bytes, start, end, "edot".as_bytes())
        || range_is(bytes, start, end, "ee".as_bytes())
        || range_is(bytes, start, end, "efDot".as_bytes())
        || range_is(bytes, start, end, "efr".as_bytes())
        || range_is(bytes, start, end, "eg".as_bytes())
        || range_is(bytes, start, end, "egrave".as_bytes())
        || range_is(bytes, start, end, "egs".as_bytes())
        || range_is(bytes, start, end, "egsdot".as_bytes())
        || range_is(bytes, start, end, "el".as_bytes())
        || range_is(bytes, start, end, "elinters".as_bytes())
}

/// Whether the text is one of the names from `ell` to `eqslantless`.
pub open spec fn named_38(text: Seq<u8>) -> bool {
    ||| text == "ell".spec_bytes()
    ||| text == "els".spec_bytes()
    ||| text == "elsdot".spec_bytes()
    ||| text == "emacr".spec_bytes()
    ||| text == "empty".spec_bytes()
    ||| text == "emptyset".spec_bytes()
    ||| text == "emptyv".spec_bytes()
    ||| text == "emsp".spec_bytes()
    ||| text == "emsp13".spec_bytes()
    ||| text == "emsp14".spec_bytes()
    ||| text == "eng".spec_bytes()
    ||| text == "ensp".spec_bytes()
    ||| text == "eogon".spec_bytes()
    ||| text == "eopf".spec_bytes()
    ||| text == "epar".spec_bytes()
    ||| text == "eparsl".spec_bytes()
    ||| text == "eplus".spec_bytes()
    ||| text == "epsi".spec_bytes()
    ||| text == "epsilon".spec_bytes()
    ||| text == "epsiv".spec_bytes()
    ||| text == "eqcirc".spec_bytes()
    ||| text == "eqcolon".spec_bytes()
    ||| text == "eqsim".spec_bytes()
    ||| text == "eqslantgtr".spec_bytes()
    ||| text == "eqslantless".spec_bytes()
}

/// Whether the bytes `start..end` are one of the names from `ell` to
/// `eqslantless`.
fn is_named_38(bytes: &[u8], start: usize, end: usize) -> (is: bool)
    requires
        start <= end <= bytes.len(),
    ensures
        is == named_38(bytes@.subrange(start as int, end as int)),
{
    range_is(bytes, start, end, "ell".as_bytes())
        || range_is(bytes, start, end, "els".as_bytes())
        || range_is(bytes, start, end, "elsdot".as_bytes())
        || range_is(bytes, start, end, "emacr".as_bytes())
        || range_is(bytes, start, end, "empty".as_bytes())
        || range_is(bytes, start, end, "emptyset".as_bytes())
        || range_is(bytes, start, end, "emptyv".as_bytes())
        || range_is(bytes, start, end, "emsp".as_bytes())
        || range_is(bytes, start, end, "emsp13".as_bytes())
        || range_is(bytes, start, end, "emsp14".as_bytes())
        || range_is(bytes, start, end, "eng".as_bytes())
        || range_is(bytes, start, end, "ensp".as_bytes())
        || range_is(bytes, start, end, "eogon".as_bytes())
        || range_is(bytes, start, end, "eopf".as_bytes())
        || range_is(bytes, start, end, "epar".as_bytes())
        || range_is(bytes, start, end, "eparsl".as_bytes())
        || range_is(bytes, start, end, "eplus".as_bytes())
        || range_is(bytes, start, end, "epsi".as_bytes())
        || range_is(bytes, start, end, "epsilon".as_bytes())
        || range_is(bytes, start, end, "epsiv".as_bytes())
        || range_is(bytes, start, end, "eqcirc".as_bytes())
        || range_is(bytes, start, end, "eqcolon".as_bytes())
        || range_is(bytes, start, end, "eqsim".as_bytes())
        || range_is(bytes, start, end, "eqslantgtr".as_bytes())
        || range_is(bytes, start, end, "eqslantless".as_bytes())
}

/// Whether the text is one of the names from `equals` to `ffr`.
pub open spec fn named_39(text: Seq<u8>) -> bool {
    ||| text == "equals".spec_bytes()
    ||| text == "equest".spec_bytes()
    ||| text == "equiv".spec_bytes()
    ||| text == "equivDD".spec_bytes()
    ||| text == "eqvparsl".spec_bytes()
    ||| text == "erDot".spec_bytes()
    ||| text == "erarr".spec_bytes()
    ||| text == "escr".spec_bytes()
    ||| text == "esdot".spec_bytes()
    ||| text == "esim".spec_bytes()
    ||| text == "eta".spec_bytes()
    ||| text == "eth".spec_bytes()
    ||| text == "euml".spec_bytes()
    ||| text == "euro".spec_bytes()
    ||| text == "excl".spec_bytes()
    ||| text == "exist".spec_bytes()
    ||| text == "expectation".spec_bytes()
    ||| text == "exponentiale".spec_bytes()
    ||| text == "fallingdotseq".spec_bytes()
    ||| text == "fcy".spec_bytes()
    ||| text == "female".spec_bytes()
    ||| text == "ffilig".spec_bytes()
    ||| text == "fflig".spec_bytes()
    ||| text == "ffllig".spec_bytes()
    ||| text == "ffr".spec_bytes()
}

/// Whether the bytes `start..end` are one of the names from `equals` to
/// `ffr`.
fn is_named_39(bytes: &[u8], start: usize, end: usize) -> (is: bool)
    requires
        start <= end <= bytes.len(),
    ensures
        is == named_39(bytes@.subrange(start as int, end as int)),
{
    range_is(bytes, start, end, "equals".as_bytes())
        || range_is(bytes, start, end, "equest".as_bytes())
        || range_is(bytes, start, end, "equiv".as_bytes())
        || range_is(bytes, start, end, "equivDD".as_bytes())
        || range_is(bytes, start, end, "eqvparsl".as_bytes())
        || range_is(bytes, start, end, "erDot".as_bytes())
        || range_is(bytes, start, end, "erarr".as_bytes())
        || range_is(bytes, start, end, "escr".as_bytes())
        || range_is(bytes, start, end, "esdot".as_bytes())
        || range_is(bytes, start, end, "esim".as_bytes())
        || range_is(bytes, start, end, "eta".as_bytes())
        || range_is(bytes, start, end, "eth".as_bytes())
        || range_is(bytes, start, end, "euml".as_bytes())
        || range_is(bytes, start, end, "euro".as_bytes())
        || range_is(bytes, start, end, "excl".as_bytes())
        || range_is(bytes, start, end, "exist".as_bytes())
        || range_is(bytes, start, end, "expectation".as_bytes())
        || range_is(bytes, start, end, "exponentiale".as_bytes())
        || range_is(bytes, start, end, "fallingdotseq".as_bytes())
        || range_is(bytes, start, end, "fcy".as_bytes())
        || range_is(bytes, start, end, "female".as_bytes())
        || range_is(bytes, start, end, "ffilig".as_bytes())
        || range_is(bytes, start, end, "fflig".as_bytes())
        || range_is(bytes, start, end, "ffllig".as_bytes())
        || range_is(bytes, start, end, "ffr".as_bytes())
}

/// Whether the text is one of the names from `filig` to `frac58`.
pub open spec fn named_40(text: Seq<u8>) -> bool {
    ||| text == "filig".spec_bytes()
    ||| text == "fjlig".spec_bytes()
    ||| text == "flat".spec_bytes()
    ||| text == "fllig".spec_bytes()
    ||| text == "fltns".spec_bytes()
    ||| text == "fnof".spec_bytes()
    ||| text == "fopf".spec_bytes()
    ||| text == "forall".spec_bytes()
    ||| text == "fork".spec_bytes()
    ||| text == "forkv".spec_bytes()
    ||| text == "fpartint".spec_bytes()
    ||| text == "frac12".spec_bytes()
    ||| text == "frac13".spec_bytes()
    ||| text == "frac14".spec_bytes()
    ||| text == "frac15".spec_bytes()
    ||| text == "frac16".spec_bytes()
    ||| text == "frac18".spec_bytes()
    ||| text == "frac23".spec_bytes()
    ||| text == "frac25".spec_bytes()
    ||| text == "frac34".spec_bytes()
    ||| text == "frac35".spec_bytes()
    ||| text == "frac38".spec_bytes()
    ||| text == "frac45".spec_bytes()
    ||| text == "frac56".spec_bytes()
    ||| text == "frac58".spec_bytes()
}

/// Whether the bytes `start..end` are one of the names from `filig` to
/// `frac58`.
fn is_named_40(bytes: &[u8], start: usize, end: usize) -> (is: bool)
    requires
        start <= end <= bytes.len(),
    ensures
        is == named_40(bytes@.subrange(start as int, end as int)),
{
    range_is(bytes, start, end, "filig".as_bytes())
        || range_is(bytes, start, end, "fjlig".as_bytes())
        || range_is(bytes, start, end, "flat".as_bytes())
        || range_is(bytes, start, end, "fllig".as_bytes())
        || range_is(bytes, start, end, "fltns".as_bytes())
        || range_is(bytes, start, end, "fnof".as_bytes())
        || range_is(bytes, start, end, "fopf".as_bytes())
        || range_is(bytes, start, end, "forall".as_bytes())
        || range_is(bytes, start, end, "fork".as_bytes())
        || range_is(bytes, start, end, "forkv".as_bytes())
        || range_is(bytes, start, end, "fpartint".as_bytes())
        || range_is(bytes, start, end, "frac12".as_bytes())
        || range_is(bytes, start, end, "frac13".as_bytes())
        || range_is(bytes, start, end, "frac14".as_bytes())
        || range_is(bytes, start, end, "frac15".as_bytes())
        || range_is(bytes, start, end, "frac16".as_bytes())
        || range_is(bytes, start, end, "frac18".as_bytes())
        || range_is(bytes, start, end, "frac23".as_bytes())
        || range_is(bytes, start, end, "frac25".as_bytes())
        || range_is(bytes, start, end, "frac34".as_bytes())
        || range_is(bytes, start, end, "frac35".as_bytes())
        || range_is(bytes, start, end, "frac38".as_bytes())
        || range_is(bytes, start, end, "frac45".as_bytes())
        || range_is(bytes, start, end, "frac56".as_bytes())
        || range_is(bytes, start, end, "frac58".as_bytes())
}

/// Whether the text is one of the names from `frac78` to `gesl`.
pub open spec fn named_41(text: Seq<u8>) -> bool {
    ||| text == "frac78".spec_bytes()
    ||| text == "frasl".spec_bytes()
    ||| text == "frown".spec_bytes()
    ||| text == "fscr".spec_bytes()
    ||| text == "gE".spec_bytes()
    ||| text == "gEl".spec_bytes()
    ||| text == "gacute".spec_bytes()
    ||| text == "gamma".spec_bytes()
    ||| text == "gammad".spec_bytes()
    ||| text == "gap".spec_bytes()
    ||| text == "gbreve".spec_bytes()
    ||| text == "gcirc".spec_bytes()
    ||| text == "gcy".spec_bytes()
    ||| text == "gdot".spec_bytes()
    ||| text == "ge".spec_bytes()
    ||| text == "gel".spec_bytes()
    ||| text == "geq".spec_bytes()
    ||| text == "geqq".spec_bytes()
    ||| text == "geqslant".spec_bytes()
    ||| text == "ges".spec_bytes()
    ||| text == "gescc".spec_bytes()
    ||| text == "gesdot".spec_bytes()
    ||| text == "gesdoto".spec_bytes()
    ||| text == "gesdotol".spec_bytes()
    ||| text == "gesl".spec_bytes()
}

/// Whether the bytes `start..end` are one of the names from `frac78` to
/// `gesl`.
fn is_named_41(bytes: &[u8], start: usize, end: usize) -> (is: bool)
    requires
        start <= end <= bytes.len(),
    ensures
        is == named_41(bytes@.subrange(start as int, end as int)),
{
    range_is(bytes, start, end, "frac78".as_bytes())
        || range_is(bytes, start, end, "frasl".as_bytes())
        || range_is(bytes, start, end, "frown".as_bytes())
        || range_is(bytes, start, end, "fscr".as_bytes())
        || range_is(bytes, start, end, "gE".as_bytes())
        || range_is(bytes, start, end, "gEl".as_bytes())
        || range_is(bytes, start, end, "gacute".as_bytes())
        || range_is(bytes, start, end, "gamma".as_bytes())
        || range_is(bytes, start, end, "gammad".as_bytes())
        || range_is(bytes, start, end, "gap".as_bytes())
        || range_is(bytes, start, end, "gbreve".as_bytes())
        || range_is(bytes, start, end, "gcirc".as_bytes())
        || range_is(bytes, start, end, "gcy".as_bytes())
        || range_is(bytes, start, end, "gdot".as_bytes())
        || range_is(bytes, start, end, "ge".as_bytes())
        || range_is(bytes, start, end, "gel".as_bytes())
        || range_is(bytes, start, end, "geq".as_bytes())
        || range_is(bytes, start, end, "geqq".as_bytes())
        || range_is(bytes, start, end, "geqslant".as_bytes())
        || range_is(bytes, start, end, "ges".as_bytes())
        || range_is(bytes, start, end, "gescc".as_bytes())
        || range_is(bytes, start, end, "gesdot".as_bytes())
        || range_is(bytes, start, end, "gesdoto".as_bytes())
        || range_is(bytes, start, end, "gesdotol".as_bytes())
        || range_is(bytes, start, end, "gesl".as_bytes())
}

/// Whether the text is one of the names from `gesles` to `gtcc`.
pub open spec fn named_42(text: Seq<u8>) -> bool {
    ||| text == "gesles".spec_bytes()
    ||| text == "gfr".spec_bytes()
    ||| text == "gg".spec_bytes()
    ||| text == "ggg".spec_bytes()
    ||| text == "gimel".spec_bytes()
    ||| text == "gjcy".spec_bytes()
    ||| text == "gl".spec_bytes()
    ||| text == "glE".spec_bytes()
    ||| text == "gla".spec_bytes()
    ||| text == "glj".spec_bytes()
    ||| text == "gnE".spec_bytes()
    ||| text == "gnap".spec_bytes()
    ||| text == "gnapprox".spec_bytes()
    ||| text == "gne".spec_bytes()
    ||| text == "gneq".spec_bytes()
    ||| text == "gneqq".spec_bytes()
    ||| text == "gnsim".spec_bytes()
    ||| text == "gopf".spec_bytes()
    ||| text == "grave".spec_bytes()
    ||| text == "gscr".spec_bytes()
    ||| text == "gsim".spec_bytes()
    ||| text == "gsime".spec_bytes()
    ||| text == "gsiml".spec_bytes()
    ||| text == "gt".spec_bytes()
    ||| text == "gtcc".spec_bytes()
}

/// Whether the bytes `start..end` are one of the names from `gesles` to
/// `gtcc`.
fn is_named_42(bytes: &[u8], start: usize, end: usize) -> (is: bool)
    requires
        start <= end <= bytes.len(),
    ensures
        is == named_42(bytes@.subrange(start as int, end as int)),
{
    range_is(bytes, start, end, "gesles".as_bytes())
        || range_is(bytes, start, end, "gfr".as_bytes())
        || range_is(bytes, start, end, "gg".as_bytes())
        || range_is(bytes, start, end, "ggg".as_bytes())
        || range_is(bytes, start, end, "gimel".as_bytes())
        || range_is(bytes, start, end, "gjcy".as_bytes())
        || range_is(bytes, start, end, "gl".as_bytes())
        || range_is(bytes, start, end, "glE".as_bytes())
        || range_is(bytes, start, end, "gla".as_bytes())
        || range_is(bytes, start, end, "glj".as_bytes())
        || range_is(bytes, start, end, "gnE".as_bytes())
        || range_is(bytes, start, end, "gnap".as_bytes())
        || range_is(bytes, start, end, "gnapprox".as_bytes())
        || range_is(bytes, start, end, "gne".as_bytes())
        || range_is(bytes, start, end, "gneq".as_bytes())
        || range_is(bytes, start, end, "gneqq".as_bytes())
        || range_is(bytes, start, end, "gnsim".as_bytes())
        || range_is(bytes, start, end, "gopf".as_bytes())
        || range_is(bytes, start, end, "grave".as_bytes())
        || range_is(bytes, start, end, "gscr".as_bytes())
        || range_is(bytes, start, end, "gsim".as_bytes())
        || range_is(bytes, start, end, "gsime".as_bytes())
        || range_is(bytes, start, end, "gsiml".as_bytes())
        || range_is(bytes, start, end, "gt".as_bytes())
        || range_is(bytes, start, end, "gtcc".as_bytes())
}

/// Whether the text is one of the names from `gtcir` to `heartsuit`.
pub open spec fn named_43(text: Seq<u8>) -> bool {
    ||| text == "gtcir".spec_bytes()
    ||| text == "gtdot".spec_bytes()
    ||| text == "gtlPar".spec_bytes()
    ||| text == "gtquest".spec_bytes()
    ||| text == "gtrapprox".spec_bytes()
    ||| text == "gtrarr".spec_bytes()
    ||| text == "gtrdot".spec_bytes()
    ||| text == "gtreqless".spec_bytes()
    ||| text == "gtreqqless".spec_bytes()
    ||| text == "gtrless".spec_bytes()
    ||| text == "gtrsim".spec_bytes()
    ||| text == "gvertneqq".spec_bytes()
    ||| text == "gvnE".spec_bytes()
    ||| text == "hArr".spec_bytes()
    ||| text == "hairsp".spec_bytes()
    ||| text == "half".spec_bytes()
    ||| text == "hamilt".spec_bytes()
    ||| text == "hardcy".spec_bytes()
    ||| text == "harr".spec_bytes()
    ||| text == "harrcir".spec_bytes()
    ||| text == "harrw".spec_bytes()
    ||| text == "hbar".spec_bytes()
    ||| text == "hcirc".spec_bytes()
    ||| text == "hearts".spec_bytes()
    ||| text == "heartsuit".spec_bytes()
}

/// Whether the bytes `start..end` are one of the names from `gtcir` to
/// `heartsuit`.
fn is_named_43(bytes: &[u8], start: usize, end: usize) -> (is: bool)
    requires
        start <= end <= bytes.len(),
    ensures
        is == named_43(bytes@.subrange(start as int, end as int)),
{
    range_is(bytes, start, end, "gtcir".as_bytes())
        || range_is(bytes, start, end, "gtdot".as_bytes())
        || range_is(bytes, start, end, "gtlPar".as_bytes())
        || range_is(bytes, start, end, "gtquest".as_bytes())
        || range_is(bytes, start, end, "gtrapprox".as_bytes())
        || range_is(bytes, start, end, "gtrarr".as_bytes())
        || range_is(bytes, start, end, "gtrdot".as_bytes())
        || range_is(bytes, start, end, "gtreqless".as_bytes())
        || range_is(bytes, start, end, "gtreqqless".as_bytes())
        || range_is(bytes, start, end, "gtrless".as_bytes())
        || range_is(bytes, start, end, "gtrsim".as_bytes())
        || range_is(bytes, start, end, "gvertneqq".as_bytes())
        || range_is(bytes, start, end, "gvnE".as_bytes())
        || range_is(bytes, start, end, "hArr".as_bytes())
        || range_is(bytes, start, end, "hairsp".as_bytes())
        || range_is(bytes, start, end, "half".as_bytes())
        || range_is(bytes, start, end, "hamilt".as_bytes())
        || range_is(bytes, start, end, "hardcy".as_bytes())
        || range_is(bytes, start, end, "harr".as_bytes())
        || range_is(bytes, start, end, "harrcir".as_bytes())
        || range_is(bytes, start, end, "harrw".as_bytes())
        || range_is(bytes, start, end, "hbar".as_bytes())
        || range_is(bytes, start, end, "hcirc".as_bytes())
        || range_is(bytes, start, end, "hearts".as_bytes())
        || range_is(bytes, start, end, "heartsuit".as_bytes())
}

/// Whether the text is one of the names from `hellip` to `igrave`.
pub open spec fn named_44(text: Seq<u8>) -> bool {
    ||| text == "hellip".spec_bytes()
    ||| text == "hercon".spec_bytes()
    ||| text == "hfr".spec_bytes()
    ||| text == "hksearow".spec_bytes()
    ||| text == "hkswarow".spec_bytes()
    ||| text == "hoarr".spec_bytes()
    ||| text == "homtht".spec_bytes()
    ||| text == "hookleftarrow".spec_bytes()
    ||| text == "hookrightarrow".spec_bytes()
    ||| text == "hopf".spec_bytes()
    ||| text == "horbar".spec_bytes()
    ||| text == "hscr".spec_bytes()
    ||| text == "hslash".spec_bytes()
    ||| text == "hstrok".spec_bytes()
    ||| text == "hybull".spec_bytes()
    ||| text == "hyphen".spec_bytes()
    ||| text == "iacute".spec_bytes()
    ||| text == "ic".spec_bytes()
    ||| text == "icirc".spec_bytes()
    ||| text == "icy".spec_bytes()
    ||| text == "iecy".spec_bytes()
    ||| text == "iexcl".spec_bytes()
    ||| text == "iff".spec_bytes()
    ||| text == "ifr".spec_bytes()
    ||| text == "igrave".spec_bytes()
}

/// Whether the bytes `start..end` are one of the names from `hellip` to
/// `igrave`.
fn is_named_44(bytes: &[u8], start: usize, end: usize) -> (is: bool)
    requires
        start <= end <= bytes.len(),
    ensures
        is == named_44(bytes@.subrange(start as int, end as int)),
{
    range_is(bytes, start, end, "hellip".as_bytes())
        || range_is(bytes, start, end, "hercon".as_bytes())
        || range_is(bytes, start, end, "hfr".as_bytes())
        || range_is(bytes, start, end, "hksearow".as_bytes())
        || range_is(bytes, start, end, "hkswarow".as_bytes())
        || range_is(bytes, start, end, "hoarr".as_bytes())
        || range_is(bytes, start, end, "homtht".as_bytes())
        || range_is(bytes, start, end, "hookleftarrow".as_bytes())
        || range_is(bytes, start, end, "hookrightarrow".as_bytes())
        || range_is(bytes, start, end, "hopf".as_bytes())
        || range_is(bytes, start, end, "horbar".as_bytes())
        || range_is(bytes, start, end, "hscr".as_bytes())
        || range_is(bytes, start, end, "hslash".as_bytes())
        || range_is(bytes, start, end, "hstrok".as_bytes())
        || range_is(bytes, start, end, "hybull".as_bytes())
        || range_is(bytes, start, end, "hyphen".as_bytes())
        || range_is(bytes, start, end, "iacute".as_bytes())
        || range_is(bytes, start, end, "ic".as_bytes())
        || range_is(bytes, start, end, "icirc".as_bytes())
        || range_is(bytes, start, end, "icy".as_bytes())
        || range_is(bytes, start, end, "iecy".as_bytes())
        || range_is(bytes, start, end, "iexcl".as_bytes())
        || range_is(bytes, start, end, "iff".as_bytes())
        || range_is(bytes, start, end, "ifr".as_bytes())
        || range_is(bytes, start, end, "igrave".as_bytes())
}

/// Whether the text is one of the names from `ii` to `iocy`.
pub open spec fn named_45(text: Seq<u8>) -> bool {
    ||| text == "ii".spec_bytes()
    ||| text == "iiiint".spec_bytes()
    ||| text == "iiint".spec_bytes()
    ||| text == "iinfin".spec_bytes()
    ||| text == "iiota".spec_bytes()
    ||| text == "ijlig".spec_bytes()
    ||| text == "imacr".spec_bytes()
    ||| text == "image".spec_bytes()
    ||| text == "imagline".spec_bytes()
    ||| text == "imagpart".spec_bytes()
    ||| text == "imath".spec_bytes()
    ||| text == "imof".spec_bytes()
    ||| text == "imped".spec_bytes()
    ||| text == "in".spec_bytes()
    ||| text == "incare".spec_bytes()
    ||| text == "infin".spec_bytes()
    ||| text == "infintie".spec_bytes()
    ||| text == "inodot".spec_bytes()
    ||| text == "int".spec_bytes()
    ||| text == "intcal".spec_bytes()
    ||| text == "integers".spec_bytes()
    ||| text == "intercal".spec_bytes()
    ||| text == "intlarhk".spec_bytes()
    ||| text == "intprod".spec_bytes()
    ||| text == "iocy".spec_bytes()
}

/// Whether the bytes `start..end` are one of the names from `ii` to
/// `iocy`.
fn is_named_45(bytes: &[u8], start: usize, end: usize) -> (is: bool)
    requires
        start <= end <= bytes.len(),
    ensures
        is == named_45(bytes@.subrange(start as int, end as int)),
{
    range_is(bytes, start, end, "ii".as_bytes())
        || range_is(bytes, start, end, "iiiint".as_bytes())
        || range_is(bytes, start, end, "iiint".as_bytes())
        || range_is(bytes, start, end, "iinfin".as_bytes())
        || range_is(bytes, start, end, "iiota".as_bytes())
        || range_is(bytes, start, end, "ijlig".as_bytes())
        || range_is(bytes, start, end, "imacr".as_bytes())
        || range_is(bytes, start, end, "image".as_bytes())
        || range_is(bytes, start, end, "imagline".as_bytes())
        || range_is(bytes, start, end, "imagpart".as_bytes())
        || range_is(bytes, start, end, "imath".as_bytes())
        || range_is(bytes, start, end, "imof".as_bytes())
        || range_is(bytes, start, end, "imped".as_bytes())
        || range_is(bytes, start, end, "in".as_bytes())
        || range_is(bytes, start, end, "incare".as_bytes())
        || range_is(bytes, start, end, "infin".as_bytes())
        || range_is(bytes, start, end, "infintie".as_bytes())
        || range_is(bytes, start, end, "inodot".as_bytes())
        || range_is(bytes, start, end, "int".as_bytes())
        || range_is(bytes, start, end, "intcal".as_bytes())
        || range_is(bytes, start, end, "integers".as_bytes())
        || range_is(bytes, start, end, "intercal".as_bytes())
        || range_is(bytes, start, end, "intlarhk".as_bytes())
        || range_is(bytes, start, end, "intprod".as_bytes())
        || range_is(bytes, start, end, "iocy".as_bytes())
}

/// Whether the text is one of the names from `iogon` to `kappa`.
pub open spec fn named_46(text: Seq<u8>) -> bool {
    ||| text == "iogon".spec_bytes()
    ||| text == "iopf".spec_bytes()
    ||| text == "iota".spec_bytes()
    ||| text == "iprod".spec_bytes()
    ||| text == "iquest".spec_bytes()
    ||| text == "iscr".spec_bytes()
    ||| text == "isin".spec_bytes()
    ||| text == "isinE".spec_bytes()
    ||| text == "isindot".spec_bytes()
    ||| text == "isins".spec_bytes()
    ||| text == "isinsv".spec_bytes()
    ||| text == "isinv".spec_bytes()
    ||| text == "it".spec_bytes()
    ||| text == "itilde".spec_bytes()
    ||| text == "iukcy".spec_bytes()
    ||| text == "iuml".spec_bytes()
    ||| text == "jcirc".spec_bytes()
    ||| text == "jcy".spec_bytes()
    ||| text == "jfr".spec_bytes()
    ||| text == "jmath".spec_bytes()
    ||| text == "jopf".spec_bytes()
    ||| text == "jscr".spec_bytes()
    ||| text == "jsercy".spec_bytes()
    ||| text == "jukcy".spec_bytes()
    ||| text == "kappa".spec_bytes()
}

/// Whether the bytes `start..end` are one of the names from `iogon` to
/// `kappa`.
fn is_named_46(bytes: &[u8], start: usize, end: usize) -> (is: bool)
    requires
        start <= end <= bytes.len(),
    ensures
        is == named_46(bytes@.subrange(start as int, end as int)),
{
    range_is(bytes, start, end, "iogon".as_bytes())
        || range_is(bytes, start, end, "iopf".as_bytes())
        || range_is(bytes, start, end, "iota".as_bytes())
        || range_is(bytes, start, end, "iprod".as_bytes())
        || range_is(bytes, start, end, "iquest".as_bytes())
        || range_is(bytes, start, end, "iscr".as_bytes())
        || range_is(bytes, start, end, "isin".as_bytes())
        || range_is(bytes, start, end, "isinE".as_bytes())
        || range_is(bytes, start, end, "isindot".as_bytes())
        || range_is(bytes, start, end, "isins".as_bytes())
        || range_is(bytes, start, end, "isinsv".as_bytes())
        || range_is(bytes, start, end, "isinv".as_bytes())
        || range_is(bytes, start, end, "it".as_bytes())
        || range_is(bytes, start, end, "itilde".as_bytes())
        || range_is(bytes, start, end, "iukcy".as_bytes())
        || range_is(bytes, start, end, "iuml".as_bytes())
        || range_is(bytes, start, end, "jcirc".as_bytes())
        || range_is(bytes, start, end, "jcy".as_bytes())
        || range_is(bytes, start, end, "jfr".as_bytes())
        || range_is(bytes, start, end, "jmath".as_bytes())
        || range_is(bytes, start, end, "jopf".as_bytes())
        || range_is(bytes, start, end, "jscr".as_bytes())
        || range_is(bytes, start, end, "jsercy".as_bytes())
        || range_is(bytes, start, end, "jukcy".as_bytes())
        || range_is(bytes, start, end, "kappa".as_bytes())
}

/// Whether the text is one of the names from `kappav` to `laquo`.
pub open spec fn named_47(text: Seq<u8>) -> bool {
    ||| text == "kappav".spec_bytes()
    ||| text == "kcedil".spec_bytes()
    ||| text == "kcy".spec_bytes()
    ||| text == "kfr".spec_bytes()
    ||| text == "kgreen".spec_bytes()
    ||| text == "khcy".spec_bytes()
    ||| text == "kjcy".spec_bytes()
    ||| text == "kopf".spec_bytes()
    ||| text == "kscr".spec_bytes()
    ||| text == "lAarr".spec_bytes()
    ||| text == "lArr".spec_bytes()
    ||| text == "lAtail".spec_bytes()
    ||| text == "lBarr".spec_bytes()
    ||| text == "lE".spec_bytes()
    ||| text == "lEg".spec_bytes()
    ||| text == "lHar".spec_bytes()
    ||| text == "lacute".spec_bytes()
    ||| text == "laemptyv".spec_bytes()
    ||| text == "lagran".spec_bytes()
    ||| text == "lambda".spec_bytes()
    ||| text == "lang".spec_bytes()
    ||| text == "langd".spec_bytes()
    ||| text == "langle".spec_bytes()
    ||| text == "lap".spec_bytes()
    ||| text == "laquo".spec_bytes()
}

/// Whether the bytes `start..end` are one of the names from `kappav` to
/// `laquo`.
fn is_named_47(bytes: &[u8], start: usize, end: usize) -> (is: bool)
    requires
        start <= end <= bytes.len(),
    ensures
        is == named_47(bytes@.subrange(start as int, end as int)),
{
    range_is(bytes, start, end, "kappav".as_bytes())
        || range_is(bytes, start, end, "kcedil".as_bytes())
        || range_is(bytes, start, end, "kcy".as_bytes())
        || range_is(bytes, start, end, "kfr".as_bytes())
        || range_is(bytes, start, end, "kgreen".as_bytes())
        || range_is(bytes, start, end, "khcy".as_bytes())
        || range_is(bytes, start, end, "kjcy".as_bytes())
        || range_is(bytes, start, end, "kopf".as_bytes())
        || range_is(bytes, start, end, "kscr".as_bytes())
        || range_is(bytes, start, end, "lAarr".as_bytes())
        || range_is(bytes, start, end, "lArr".as_bytes())
        || range_is(bytes, start, end, "lAtail".as_bytes())
        || range_is(bytes, start, end, "lBarr".as_bytes())
        || range_is(bytes, start, end, "lE".as_bytes())
        || range_is(bytes, start, end, "lEg".as_bytes())
        || range_is(bytes, start, end, "lHar".as_bytes())
        || range_is(bytes, start, end, "lacute".as_bytes())
        || range_is(bytes, start, end, "laemptyv".as_bytes())
        || range_is(bytes, start, end, "lagran".as_bytes())
        || range_is(bytes, start, end, "lambda".as_bytes())
        || range_is(bytes, start, end, "lang".as_bytes())
        || range_is(bytes, start, end, "langd".as_bytes())
        || range_is(bytes, start, end, "langle".as_bytes())
        || range_is(bytes, start, end, "lap".as_bytes())
        || range_is(bytes, start, end, "laquo".as_bytes())
}

/// Whether the text is one of the names from `larr` to `lcy`.
pub open spec fn named_48(text: Seq<u8>) -> bool {
    ||| text == "larr".spec_bytes()
    ||| text == "larrb".spec_bytes()
    ||| text == "larrbfs".spec_bytes()
    ||| text == "larrfs".spec_bytes()
    ||| text == "larrhk".spec_bytes()
    ||| text == "larrlp".spec_bytes()
    ||| text == "larrpl".spec_bytes()
    ||| text == "larrsim".spec_bytes()
    ||| text == "larrtl".spec_bytes()
    ||| text == "lat".spec_bytes()
    ||| text == "latail".spec_bytes()
    ||| text == "late".spec_bytes()
    ||| text == "lates".spec_bytes()
    ||| text == "lbarr".spec_bytes()
    ||| text == "lbbrk".spec_bytes()
    ||| text == "lbrace".spec_bytes()
    ||| text == "lbrack".spec_bytes()
    ||| text == "lbrke".spec_bytes()
    ||| text == "lbrksld".spec_bytes()
    ||| text == "lbrkslu".spec_bytes()
    ||| text == "lcaron".spec_bytes()
    ||| text == "lcedil".spec_bytes()
    ||| text == "lceil".spec_bytes()
    ||| text == "lcub".spec_bytes()
    ||| text == "lcy".spec_bytes()
}

/// Whether the bytes `start..end` are one of the names from `larr` to
/// `lcy`.
fn is_named_48(bytes: &[u8], start: usize, end: usize) -> (is: bool)
    requires
        start <= end <= bytes.len(),
    ensures
        is == named_48(bytes@.subrange(start as int, end as int)),
{
    range_is(bytes, start, end, "larr".as_bytes())
        || range_is(bytes, start, end, "larrb".as_bytes())
        || range_is(bytes, start, end, "larrbfs".as_bytes())
        || range_is(bytes, start, end, "larrfs".as_bytes())
        || range_is(bytes, start, end, "larrhk".as_bytes())
        || range_is(bytes, start, end, "larrlp".as_bytes())
        || range_is(bytes, start, end, "larrpl".as_bytes())
        || range_is(bytes, start, end, "larrsim".as_bytes())
        || range_is(bytes, start, end, "larrtl".as_bytes())
        || range_is(bytes, start, end, "lat".as_bytes())
        || range_is(bytes, start, end, "latail".as_bytes())
        || range_is(bytes, start, end, "late".as_bytes())
        || range_is(bytes, start, end, "lates".as_bytes())
        || range_is(bytes, start, end, "lbarr".as_bytes())
        || range_is(bytes, start, end, "lbbrk".as_bytes())
        || range_is(bytes, start, end, "lbrace".as_bytes())
        || range_is(bytes, start, end, "lbrack".as_bytes())
        || range_is(bytes, start, end, "lbrke".as_bytes())
        || range_is(bytes, start, end, "lbrksld".as_bytes())
        || range_is(bytes, start, end, "lbrkslu".as_bytes())
        || range_is(bytes, start, end, "lcaron".as_bytes())
        || range_is(bytes, start, end, "lcedil".as_bytes())
        || range_is(bytes, start, end, "lceil".as_bytes())
        || range_is(bytes, start, end, "lcub".as_bytes())
        || range_is(bytes, start, end, "lcy".as_bytes())
}

/// Whether the text is one of the names from `ldca` to `lesdoto`.
pub open spec fn named_49(text: Seq<u8>) -> bool {
    ||| text == "ldca".spec_bytes()
    ||| text == "ldquo".spec_bytes()
    ||| text == "ldquor".spec_bytes()
    ||| text == "ldrdhar".spec_bytes()
    ||| text == "ldrushar".spec_bytes()
    ||| text == "ldsh".spec_bytes()
    ||| text == "le".spec_bytes()
    ||| text == "leftarrow".spec_bytes()
    ||| text == "leftarrowtail".spec_bytes()
    ||| text == "leftharpoondown".spec_bytes()
    ||| text == "leftharpoonup".spec_bytes()
    ||| text == "leftleftarrows".spec_bytes()
    ||| text == "leftrightarrow".spec_bytes()
    ||| text == "leftrightarrows".spec_bytes()
    ||| text == "leftrightharpoons".spec_bytes()
    ||| text == "leftrightsquigarrow".spec_bytes()
    ||| text == "leftthreetimes".spec_bytes()
    ||| text == "leg".spec_bytes()
    ||| text == "leq".spec_bytes()
    ||| text == "leqq".spec_bytes()
    ||| text == "leqslant".spec_bytes()
    ||| text == "les".spec_bytes()
    ||| text == "lescc".spec_bytes()
    ||| text == "lesdot".spec_bytes()
    ||| text == "lesdoto".spec_bytes()
}

/// Whether the bytes `start..end` are one of the names from `ldca` to
/// `lesdoto`.
fn is_named_49(bytes: &[u8], start: usize, end: usize) -> (is: bool)
    requires
        start <= end <= bytes.len(),
    ensures
        is == named_49(bytes@.subrange(start as int, end as int)),
{
    range_is(bytes, start, end, "ldca".as_bytes())
        || range_is(bytes, start, end, "ldquo".as_bytes())
        || range_is(bytes, start, end, "ldquor".as_bytes())
        || range_is(bytes, start, end, "ldrdhar".as_bytes())
        || range_is(bytes, start, end, "ldrushar".as_bytes())
        || range_is(bytes, start, end, "ldsh".as_bytes())
        || range_is(bytes, start, end, "le".as_bytes())
        || range_is(bytes, start, end, "leftarrow".as_bytes())
        || range_is(bytes, start, end, "leftarrowtail".as_bytes())
        || range_is(bytes, start, end, "leftharpoondown".as_bytes())
        || range_is(bytes, start, end, "leftharpoonup".as_bytes())
        || range_is(bytes, start, end, "leftleftarrows".as_bytes())
        || range_is(bytes, start, end, "leftrightarrow".as_bytes())
        || range_is(bytes, start, end, "leftrightarrows".as_bytes())
        || range_is(bytes, start, end, "leftrightharpoons".as_bytes())
        || range_is(bytes, start, end, "leftrightsquigarrow".as_bytes())
        || range_is(bytes, start, end, "leftthreetimes".as_bytes())
        || range_is(bytes, start, end, "leg".as_bytes())
        || range_is(bytes, start, end, "leq".as_bytes())
        || range_is(bytes, start, end, "leqq".as_bytes())
        || range_is(bytes, start, end, "leqslant".as_bytes())
        || range_is(bytes, start, end, "les".as_bytes())
        || range_is(bytes, start, end, "lescc".as_bytes())
        || range_is(bytes, start, end, "lesdot".as_bytes())
        || range_is(bytes, start, end, "lesdoto".as_bytes())
}

/// Whether the text is one of the names from `lesdotor` to `lmidot`.
pub open spec fn named_50(text: Seq<u8>) -> bool {
    ||| text == "lesdotor".spec_bytes()
    ||| text == "lesg".spec_bytes()
    ||| text == "lesges".spec_bytes()
    ||| text == "lessapprox".spec_bytes()
    ||| text == "lessdot".spec_bytes()
    ||| text == "lesseqgtr".spec_bytes()
    ||| text == "lesseqqgtr".spec_bytes()
    ||| text == "lessgtr".spec_bytes()
    ||| text == "lesssim".spec_bytes()
    ||| text == "lfisht".spec_bytes()
    ||| text == "lfloor".spec_bytes()
    ||| text == "lfr".spec_bytes()
    ||| text == "lg".spec_bytes()
    ||| text == "lgE".spec_bytes()
    ||| text == "lhard".spec_bytes()
    ||| text == "lharu".spec_bytes()
    ||| text == "lharul".spec_bytes()
    ||| text == "lhblk".spec_bytes()
    ||| text == "ljcy".spec_bytes()
    ||| text == "ll".spec_bytes()
    ||| text == "llarr".spec_bytes()
    ||| text == "llcorner".spec_bytes()
    ||| text == "llhard".spec_bytes()
    ||| text == "lltri".spec_bytes()
    ||| text == "lmidot".spec_bytes()
}

/// Whether the bytes `start..end` are one of the names from `lesdotor` to
/// `lmidot`.
fn is_named_50(bytes: &[u8], start: usize, end: usize) -> (is: bool)
    requires
        start <= end <= bytes.len(),
    ensures
        is == named_50(bytes@.subrange(start as int, end as int)),
{
    range_is(bytes, start, end, "lesdotor".as_bytes())
        || range_is(bytes, start, end, "lesg".as_bytes())
        || range_is(bytes, start, end, "lesges".as_bytes())
        || range_is(bytes, start, end, "lessapprox".as_bytes())
        || range_is(bytes, start, end, "lessdot".as_bytes())
        || range_is(bytes, start, end, "lesseqgtr".as_bytes())
        || range_is(bytes, start, end, "lesseqqgtr".as_bytes())
        || range_is(bytes, start, end, "lessgtr".as_bytes())
        || range_is(bytes, start, end, "lesssim".as_bytes())
        || range_is(bytes, start, end, "lfisht".as_bytes())
        || range_is(bytes, start, end, "lfloor".as_bytes())
        || range_is(bytes, start, end, "lfr".as_bytes())
        || range_is(bytes, start, end, "lg".as_bytes())
        || range_is(bytes, start, end, "lgE".as_bytes())
        || range_is(bytes, start, end, "lhard".as_bytes())
        || range_is(bytes, start, end, "lharu".as_bytes())
        || range_is(bytes, start, end, "lharul".as_bytes())
        || range_is(bytes, start, end, "lhblk".as_bytes())
        || range_is(bytes, start, end, "ljcy".as_bytes())
        || range_is(bytes, start, end, "ll".as_bytes())
        || range_is(bytes, start, end, "llarr".as_bytes())
        || range_is(bytes, start, end, "llcorner".as_bytes())
        || range_is(bytes, start, end, "llhard".as_bytes())
        || range_is(bytes, start, end, "lltri".as_bytes())
        || range_is(bytes, start, end, "lmidot".as_bytes())
}

/// Whether the text is one of the names from `lmoust` to `loz`.
pub open spec fn named_51(text: Seq<u8>) -> bool {
    ||| text == "lmoust".spec_bytes()
    ||| text == "lmoustache".spec_bytes()
    ||| text == "lnE".spec_bytes()
    ||| text == "lnap".spec_bytes()
    ||| text == "lnapprox".spec_bytes()
    ||| text == "lne".spec_bytes()
    ||| text == "lneq".spec_bytes()
    ||| text == "lneqq".spec_bytes()
    ||| text == "lnsim".spec_bytes()
    ||| text == "loang".spec_bytes()
    ||| text == "loarr".spec_bytes()
    ||| text == "lobrk".spec_bytes()
    ||| text == "longleftarrow".spec_bytes()
    ||| text == "longleftrightarrow".spec_bytes()
    ||| text == "longmapsto".spec_bytes()
    ||| text == "longrightarrow".spec_bytes()
    ||| text == "looparrowleft".spec_bytes()
    ||| text == "looparrowright".spec_bytes()
    ||| text == "lopar".spec_bytes()
    ||| text == "lopf".spec_bytes()
    ||| text == "loplus".spec_bytes()
    ||| text == "lotimes".spec_bytes()
    ||| text == "lowast".spec_bytes()
    ||| text == "lowbar".spec_bytes()
    ||| text == "loz".spec_bytes()
}

/// Whether the bytes `start..end` are one of the names from `lmoust` to
/// `loz`.
fn is_named_51(bytes: &[u8], start: usize, end: usize) -> (is: bool)
    requires
        start <= end <= bytes.len(),
    ensures
        is == named_51(bytes@.subrange(start as int, end as int)),
{
    range_is(bytes, start, end, "lmoust".as_bytes())
        || range_is(bytes, start, end, "lmoustache".as_bytes())
        || range_is(bytes, start, end, "lnE".as_bytes())
        || range_is(bytes, start, end, "lnap".as_bytes())
        || range_is(bytes, start, end, "lnapprox".as_bytes())
        || range_is(bytes, start, end, "lne".as_bytes())
        || range_is(bytes, start, end, "lneq".as_bytes())
        || range_is(bytes, start, end, "lneqq".as_bytes())
        || range_is(bytes, start, end, "lnsim".as_bytes())
        || range_is(bytes, start, end, "loang".as_bytes())
        || range_is(bytes, start, end, "loarr".as_bytes())
        || range_is(bytes, start, end, "lobrk".as_bytes())
        || range_is(bytes, start, end, "longleftarrow".as_bytes())
        || range_is(bytes, start, end, "longleftrightarrow".as_bytes())
        || range_is(bytes, start, end, "longmapsto".as_bytes())
        || range_is(bytes, start, end, "longrightarrow".as_bytes())
        || range_is(bytes, start, end, "looparrowleft".as_bytes())
        || range_is(bytes, start, end, "looparrowright".as_bytes())
        || range_is(bytes, start, end, "lopar".as_bytes())
        || range_is(bytes, start, end, "lopf".as_bytes())
        || range_is(bytes, start, end, "loplus".as_bytes())
        || range_is(bytes, start, end, "lotimes".as_bytes())
        || range_is(bytes, start, end, "lowast".as_bytes())
        || range_is(bytes, start, end, "lowbar".as_bytes())
        || range_is(bytes, start, end, "loz".as_bytes())
}

/// Whether the text is one of the names from `lozenge` to `lthree`.
pub open spec fn named_52(text: Seq<u8>) -> bool {
    ||| text == "lozenge".spec_bytes()
    ||| text == "lozf".spec_bytes()
    ||| text == "lpar".spec_bytes()
    ||| text == "lparlt".spec_bytes()
    ||| text == "lrarr".spec_bytes()
    ||| text == "lrcorner".spec_bytes()
    ||| text == "lrhar".spec_bytes()
    ||| text == "lrhard".spec_bytes()
    ||| text == "lrm".spec_bytes()
    ||| text == "lrtri".spec_bytes()
    ||| text == "lsaquo".spec_bytes()
    ||| text == "lscr".spec_bytes()
    ||| text == "lsh".spec_bytes()
    ||| text == "lsim".spec_bytes()
    ||| text == "lsime".spec_bytes()
    ||| text == "lsimg".spec_bytes()
    ||| text == "lsqb".spec_bytes()
    ||| text == "lsquo".spec_bytes()
    ||| text == "lsquor".spec_bytes()
    ||| text == "lstrok".spec_bytes()
    ||| text == "lt".spec_bytes()
    ||| text == "ltcc".spec_bytes()
    ||| text == "ltcir".spec_bytes()
    ||| text == "ltdot".spec_bytes()
    ||| text == "lthree".spec_bytes()
}

/// Whether the bytes `start..end` are one of the names from `lozenge` to
/// `lthree`.
fn is_named_52(bytes: &[u8], start: usize, end: usize) -> (is: bool)
    requires
        start <= end <= bytes.len(),
    ensures
        is == named_52(bytes@.subrange(start as int, end as int)),
{
    range_is(bytes, start, end, "lozenge".as_bytes())
        || range_is(bytes, start, end, "lozf".as_bytes())
        || range_is(bytes, start, end, "lpar".as_bytes())
        || range_is(bytes, start, end, "lparlt".as_bytes())
        || range_is(bytes, start, end, "lrarr".as_bytes())
        || range_is(bytes, start, end, "lrcorner".as_bytes())
        || range_is(bytes, start, end, "lrhar".as_bytes())
        || range_is(bytes, start, end, "lrhard".as_bytes())
        || range_is(bytes, start, end, "lrm".as_bytes())
        || range_is(bytes, start, end, "lrtri".as_bytes())
        || range_is(bytes, start, end, "lsaquo".as_bytes())
        || range_is(bytes, start, end, "lscr".as_bytes())
        || range_is(bytes, start, end, "lsh".as_bytes())
        || range_is(bytes, start, end, "lsim".as_bytes())
        || range_is(bytes, start, end, "lsime".as_bytes())
        || range_is(bytes, start, end, "lsimg".as_bytes())
        || range_is(bytes, start, end, "lsqb".as_bytes())
        || range_is(bytes, start, end, "lsquo".as_bytes())
        || range_is(bytes, start, end, "lsquor".as_bytes())
        || range_is(bytes, start, end, "lstrok".as_bytes())
        || range_is(bytes, start, end, "lt".as_bytes())
        || range_is(bytes, start, end, "ltcc".as_bytes())
        || range_is(bytes, start, end, "ltcir".as_bytes())
        || range_is(bytes, start, end, "ltdot".as_bytes())
        || range_is(bytes, start, end, "lthree".as_bytes())
}

/// Whether the text is one of the names from `ltimes` to `mdash`.
pub open spec fn named_53(text: Seq<u8>) -> bool {
    ||| text == "ltimes".spec_bytes()
    ||| text == "ltlarr".spec_bytes()
    ||| text == "ltquest".spec_bytes()
    ||| text == "ltrPar".spec_bytes()
    ||| text == "ltri".spec_bytes()
    ||| text == "ltrie".spec_bytes()
    ||| text == "ltrif".spec_bytes()
    ||| text == "lurdshar".spec_bytes()
    ||| text == "luruhar".spec_bytes()
    ||| text == "lvertneqq".spec_bytes()
    ||| text == "lvnE".spec_bytes()
    ||| text == "mDDot".spec_bytes()
    ||| text == "macr".spec_bytes()
    ||| text == "male".spec_bytes()
    ||| text == "malt".spec_bytes()
    ||| text == "maltese".spec_bytes()
    ||| text == "map".spec_bytes()
    ||| text == "mapsto".spec_bytes()
    ||| text == "mapstodown".spec_bytes()
    ||| text == "mapstoleft".spec_bytes()
    ||| text == "mapstoup".spec_bytes()
    ||| text == "marker".spec_bytes()
    ||| text == "mcomma".spec_bytes()
    ||| text == "mcy".spec_bytes()
    ||| text == "mdash".spec_bytes()
}

/// Whether the bytes `start..end` are one of the names from `ltimes` to
/// `mdash`.
fn is_named_53(bytes: &[u8], start: usize, end: usize) -> (is: bool)
    requires
        start <= end <= bytes.len(),
    ensures
        is == named_53(bytes@.subrange(start as int, end as int)),
{
    range_is(bytes, start, end, "ltimes".as_bytes())
        || range_is(bytes, start, end, "ltlarr".as_bytes())
        || range_is(bytes, start, end, "ltquest".as_bytes())
        || range_is(bytes, start, end, "ltrPar".as_bytes())
        || range_is(bytes, start, end, "ltri".as_bytes())
        || range_is(bytes, start, end, "ltrie".as_bytes())
        || range_is(bytes, start, end, "ltrif".as_bytes())
        || range_is(bytes, start, end, "lurdshar".as_bytes())
        || range_is(bytes, start, end, "luruhar".as_bytes())
        || range_is(bytes, start, end, "lvertneqq".as_bytes())
        || range_is(bytes, start, end, "lvnE".as_bytes())
        || range_is(bytes, start, end, "mDDot".as_bytes())
        || range_is(bytes, start, end, "macr".as_bytes())
        || range_is(bytes, start, end, "male".as_bytes())
        || range_is(bytes, start, end, "malt".as_bytes())
        || range_is(bytes, start, end, "maltese".as_bytes())
        || range_is(bytes, start, end, "map".as_bytes())
        || range_is(bytes, start, end, "mapsto".as_bytes())
        || range_is(bytes, start, end, "mapstodown".as_bytes())
        || range_is(bytes, start, end, "mapstoleft".as_bytes())
        || range_is(bytes, start, end, "mapstoup".as_bytes())
        || range_is(bytes, start, end, "marker".as_bytes())
        || range_is(bytes, start, end, "mcomma".as_bytes())
        || range_is(bytes, start, end, "mcy".as_bytes())
        || range_is(bytes, start, end, "mdash".as_bytes())
}

/// Whether the text is one of the names from `measuredangle` to `nGt`.
pub open spec fn named_54(text: Seq<u8>) -> bool {
    ||| text == "measuredangle".spec_bytes()
    ||| text == "mfr".spec_bytes()
    ||| text == "mho".spec_bytes()
    ||| text == "micro".spec_bytes()
    ||| text == "mid".spec_bytes()
    ||| text == "midast".spec_bytes()
    ||| text == "midcir".spec_bytes()
    ||| text == "middot".spec_bytes()
    ||| text == "minus".spec_bytes()
    ||| text == "minusb".spec_bytes()
    ||| text == "minusd".spec_bytes()
    ||| text == "minusdu".spec_bytes()
    ||| text == "mlcp".spec_bytes()
    ||| text == "mldr".spec_bytes()
    ||| text == "mnplus".spec_bytes()
    ||| text == "models".spec_bytes()
    ||| text == "mopf".spec_bytes()
    ||| text == "mp".spec_bytes()
    ||| text == "mscr".spec_bytes()
    ||| text == "mstpos".spec_bytes()
    ||| text == "mu".spec_bytes()
    ||| text == "multimap".spec_bytes()
    ||| text == "mumap".spec_bytes()
    ||| text == "nGg".spec_bytes()
    ||| text == "nGt".spec_bytes()
}

/// Whether the bytes `start..end` are one of the names from `measuredangle` to
/// `nGt`.
fn is_named_54(bytes: &[u8], start: usize, end: usize) -> (is: bool)
    requires
        start <= end <= bytes.len(),
    ensures
        is == named_54(bytes@.subrange(start as int, end as int)),
{
    range_is(bytes, start, end, "measuredangle".as_bytes())
        || range_is(bytes, start, end, "mfr".as_bytes())
        || range_is(bytes, start, end, "mho".as_bytes())
        || range_is(bytes, start, end, "micro".as_bytes())
        || range_is(bytes, start, end, "mid".as_bytes())
        || range_is(bytes, start, end, "midast".as_bytes())
        || range_is(bytes, start, end, "midcir".as_bytes())
        || range_is(bytes, start, end, "middot".as_bytes())
        || range_is(bytes, start, end, "minus".as_bytes())
        || range_is(bytes, start, end, "minusb".as_bytes())
        || range_is(bytes, start, end, "minusd".as_bytes())
        || range_is(bytes, start, end, "minusdu".as_bytes())
        || range_is(bytes, start, end, "mlcp".as_bytes())
        || range_is(bytes, start, end, "mldr".as_bytes())
        || range_is(bytes, start, end, "mnplus".as_bytes())
        || range_is(bytes, start, end, "models".as_bytes())
        || range_is(bytes, start, end, "mopf".as_bytes())
        || range_is(bytes, start, end, "mp".as_bytes())
        || range_is(bytes, start, end, "mscr".as_bytes())
        || range_is(bytes, start, end, "mstpos".as_bytes())
        || range_is(bytes, start, end, "mu".as_bytes())
        || range_is(bytes, start, end, "multimap".as_bytes())
        || range_is(bytes, start, end, "mumap".as_bytes())
        || range_is(bytes, start, end, "nGg".as_bytes())
        || range_is(bytes, start, end, "nGt".as_bytes())
}

/// Whether the text is one of the names from `nGtv` to `ncaron`.
pub open spec fn named_55(text: Seq<u8>) -> bool {
    ||| text == "nGtv".spec_bytes()
    ||| text == "nLeftarrow".spec_bytes()
    ||| text == "nLeftrightarrow".spec_bytes()
    ||| text == "nLl".spec_bytes()
    ||| text == "nLt".spec_bytes()
    ||| text == "nLtv".spec_bytes()
    ||| text == "nRightarrow".spec_bytes()
    ||| text == "nVDash".spec_bytes()
    ||| text == "nVdash".spec_bytes()
    ||| text == "nabla".spec_bytes()
    ||| text == "nacute".spec_bytes()
    ||| text == "nang".spec_bytes()
    ||| text == "nap".spec_bytes()
    ||| text == "napE".spec_bytes()
    ||| text == "napid".spec_bytes()
    ||| text == "napos".spec_bytes()
    ||| text == "napprox".spec_bytes()
    ||| text == "natur".spec_bytes()
    ||| text == "natural".spec_bytes()
    ||| text == "naturals".spec_bytes()
    ||| text == "nbsp".spec_bytes()
    ||| text == "nbump".spec_bytes()
    ||| text == "nbumpe".spec_bytes()
    ||| text == "ncap".spec_bytes()
    ||| text == "ncaron".spec_bytes()
}

/// Whether the bytes `start..end` are one of the names from `nGtv` to
/// `ncaron`.
fn is_named_55(bytes: &[u8], start: usize, end: usize) -> (is: bool)
    requires
        start <= end <= bytes.len(),
    ensures
        is == named_55(bytes@.subrange(start as int, end as int)),
{
    range_is(bytes, start, end, "nGtv".as_bytes())
        || range_is(bytes, start, end, "nLeftarrow".as_bytes())
        || range_is(bytes, start, end, "nLeftrightarrow".as_bytes())
        || range_is(bytes, start, end, "nLl".as_bytes())
        || range_is(bytes, start, end, "nLt".as_bytes())
        || range_is(bytes, start, end, "nLtv".as_bytes())
        || range_is(bytes, start, end, "nRightarrow".as_bytes())
        || range_is(bytes, start, end, "nVDash".as_bytes())
        || range_is(bytes, start, end, "nVdash".as_bytes())
        || range_is(bytes, start, end, "nabla".as_bytes())
        || range_is(bytes, start, end, "nacute".as_bytes())
        || range_is(bytes, start, end, "nang".as_bytes())
        || range_is(bytes, start, end, "nap".as_bytes())
        || range_is(bytes, start, end, "napE".as_bytes())
        || range_is(bytes, start, end, "napid".as_bytes())
        || range_is(bytes, start, end, "napos".as_bytes())
        || range_is(bytes, start, end, "napprox".as_bytes())
        || range_is(bytes, start, end, "natur".as_bytes())
        || range_is(bytes, start, end, "natural".as_bytes())
        || range_is(bytes, start, end, "naturals".as_bytes())
        || range_is(bytes, start, end, "nbsp".as_bytes())
        || range_is(bytes, start, end, "nbump".as_bytes())
        || range_is(bytes, start, end, "nbumpe".as_bytes())
        || range_is(bytes, start, end, "ncap".as_bytes())
        || range_is(bytes, start, end, "ncaron".as_bytes())
}

/// Whether the text is one of the names from `ncedil` to `ngsim`.
pub open spec fn named_56(text: Seq<u8>) -> bool {
    ||| text == "ncedil".spec_bytes()
    ||| text == "ncong".spec_bytes()
    ||| text == "ncongdot".spec_bytes()
    ||| text == "ncup".spec_bytes()
    ||| text == "ncy".spec_bytes()
    ||| text == "ndash".spec_bytes()
    ||| text == "ne".spec_bytes()
    ||| text == "neArr".spec_bytes()
    ||| text == "nearhk".spec_bytes()
    ||| text == "nearr".spec_bytes()
    ||| text == "nearrow".spec_bytes()
    ||| text == "nedot".spec_bytes()
    ||| text == "nequiv".spec_bytes()
    ||| text == "nesear".spec_bytes()
    ||| text == "nesim".spec_bytes()
    ||| text == "nexist".spec_bytes()
    ||| text == "nexists".spec_bytes()
    ||| text == "nfr".spec_bytes()
    ||| text == "ngE".spec_bytes()
    ||| text == "nge".spec_bytes()
    ||| text == "ngeq".spec_bytes()
    ||| text == "ngeqq".spec_bytes()
    ||| text == "ngeqslant".spec_bytes()
    ||| text == "nges".spec_bytes()
    ||| text == "ngsim".spec_bytes()
}

/// Whether the bytes `start..end` are one of the names from `ncedil` to
/// `ngsim`.
fn is_named_56(bytes: &[u8], start: usize, end: usize) -> (is: bool)
    requires
        start <= end <= bytes.len(),
    ensures
        is == named_56(bytes@.subrange(start as int, end as int)),
{
    range_is(bytes, start, end, "ncedil".as_bytes())
        || range_is(bytes, start, end, "ncong".as_bytes())
        || range_is(bytes, start, end, "ncongdot".as_bytes())
        || range_is(bytes, start, end, "ncup".as_bytes())
        || range_is(bytes, start, end, "ncy".as_bytes())
        || range_is(bytes, start, end, "ndash".as_bytes())
        || range_is(bytes, start, end, "ne".as_bytes())
        || range_is(bytes, start, end, "neArr".as_bytes())
        || range_is(bytes, start, end, "nearhk".as_bytes())
        || range_is(bytes, start, end, "nearr".as_bytes())
        || range_is(bytes, start, end, "nearrow".as_bytes())
        || range_is(bytes, start, end, "nedot".as_bytes())
        || range_is(bytes, start, end, "nequiv".as_bytes())
        || range_is(bytes, start, end, "nesear".as_bytes())
        || range_is(bytes, start, end, "nesim".as_bytes())
        || range_is(bytes, start, end, "nexist".as_bytes())
        || range_is(bytes, start, end, "nexists".as_bytes())
        || range_is(bytes, start, end, "nfr".as_bytes())
        || range_is(bytes, start, end, "ngE".as_bytes())
        || range_is(bytes, start, end, "nge".as_bytes())
        || range_is(bytes, start, end, "ngeq".as_bytes())
        || range_is(bytes, start, end, "ngeqq".as_bytes())
        || range_is(bytes, start, end, "ngeqslant".as_bytes())
        || range_is(bytes, start, end, "nges".as_bytes())
        || range_is(bytes, start, end, "ngsim".as_bytes())
}

/// Whether the text is one of the names from `ngt` to `nltri`.
pub open spec fn named_57(text: Seq<u8>) -> bool {
    ||| text == "ngt".spec_bytes()
    ||| text == "ngtr".spec_bytes()
    ||| text == "nhArr".spec_bytes()
    ||| text == "nharr".spec_bytes()
    ||| text == "nhpar".spec_bytes()
    ||| text == "ni".spec_bytes()
    ||| text == "nis".spec_bytes()
    ||| text == "nisd".spec_bytes()
    ||| text == "niv".spec_bytes()
    ||| text == "njcy".spec_bytes()
    ||| text == "nlArr".spec_bytes()
    ||| text == "nlE".spec_bytes()
    ||| text == "nlarr".spec_bytes()
    ||| text == "nldr".spec_bytes()
    ||| text == "nle".spec_bytes()
    ||| text == "nleftarrow".spec_bytes()
    ||| text == "nleftrightarrow".spec_bytes()
    ||| text == "nleq".spec_bytes()
    ||| text == "nleqq".spec_bytes()
    ||| text == "nleqslant".spec_bytes()
    ||| text == "nles".spec_bytes()
    ||| text == "nless".spec_bytes()
    ||| text == "nlsim".spec_bytes()
    ||| text == "nlt".spec_bytes()
    ||| text == "nltri".spec_bytes()
}

/// Whether the bytes `start..end` are one of the names from `ngt` to
/// `nltri`.
fn is_named_57(bytes: &[u8], start: usize, end: usize) -> (is: bool)
    requires
        start <= end <= bytes.len(),
    ensures
        is == named_57(bytes@.subrange(start as int, end as int)),
{
    range_is(bytes, start, end, "ngt".as_bytes())
        || range_is(bytes, start, end, "ngtr".as_bytes())
        || range_is(bytes, start, end, "nhArr".as_bytes())
        || range_is(bytes, start, end, "nharr".as_bytes())
        || range_is(bytes, start, end, "nhpar".as_bytes())
        || range_is(bytes, start, end, "ni".as_bytes())
        || range_is(bytes, start, end, "nis".as_bytes())
        || range_is(bytes, start, end, "nisd".as_bytes())
        || range_is(bytes, start, end, "niv".as_bytes())
        || range_is(bytes, start, end, "njcy".as_bytes())
        || range_is(bytes, start, end, "nlArr".as_bytes())
        || range_is(bytes, start, end, "nlE".as_bytes())
        || range_is(bytes, start, end, "nlarr".as_bytes())
        || range_is(bytes, start, end, "nldr".as_bytes())
        || range_is(bytes, start, end, "nle".as_bytes())
        || range_is(bytes, start, end, "nleftarrow".as_bytes())
        || range_is(bytes, start, end, "nleftrightarrow".as_bytes())
        || range_is(bytes, start, end, "nleq".as_bytes())
        || range_is(bytes, start, end, "nleqq".as_bytes())
        || range_is(bytes, start, end, "nleqslant".as_bytes())
        || range_is(bytes, start, end, "nles".as_bytes())
        || range_is(bytes, start, end, "nless".as_bytes())
        || range_is(bytes, start, end, "nlsim".as_bytes())
        || range_is(bytes, start, end, "nlt".as_bytes())
        || range_is(bytes, start, end, "nltri".as_bytes())
}

/// Whether the text is one of the names from `nltrie` to `nrArr`.
pub open spec fn named_58(text: Seq<u8>) -> bool {
    ||| text == "nltrie".spec_bytes()
    ||| text == "nmid".spec_bytes()
    ||| text == "nopf".spec_bytes()
    ||| text == "not".spec_bytes()
    ||| text == "notin".spec_bytes()
    ||| text == "notinE".spec_bytes()
    ||| text == "notindot".spec_bytes()
    ||| text == "notinva".spec_bytes()
    ||| text == "notinvb".spec_bytes()
    ||| text == "notinvc".spec_bytes()
    ||| text == "notni".spec_bytes()
    ||| text == "notniva".spec_bytes()
    ||| text == "notnivb".spec_bytes()
    ||| text == "notnivc".spec_bytes()
    ||| text == "npar".spec_bytes()
    ||| text == "nparallel".spec_bytes()
    ||| text == "nparsl".spec_bytes()
    ||| text == "npart".spec_bytes()
    ||| text == "npolint".spec_bytes()
    ||| text == "npr".spec_bytes()
    ||| text == "nprcue".spec_bytes()
    ||| text == "npre".spec_bytes()
    ||| text == "nprec".spec_bytes()
    ||| text == "npreceq".spec_bytes()
    ||| text == "nrArr".spec_bytes()
}

/// Whether the bytes `start..end` are one of the names from `nltrie` to
/// `nrArr`.
fn is_named_58(bytes: &[u8], start: usize, end: usize) -> (is: bool)
    requires
        start <= end <= bytes.len(),
    ensures
        is == named_58(bytes@.subrange(start as int, end as int)),
{
    range_is(bytes, start, end, "nltrie".as_bytes())
        || range_is(bytes, start, end, "nmid".as_bytes())
        || range_is(bytes, start, end, "nopf".as_bytes())
        || range_is(bytes, start, end, "not".as_bytes())
        || range_is(bytes, start, end, "notin".as_bytes())
        || range_is(bytes, start, end, "notinE".as_bytes())
        || range_is(bytes, start, end, "notindot".as_bytes())
        || range_is(bytes, start, end, "notinva".as_bytes())
        || range_is(bytes, start, end, "notinvb".as_bytes())
        || range_is(bytes, start, end, "notinvc".as_bytes())
        || range_is(bytes, start, end, "notni".as_bytes())
        || range_is(bytes, start, end, "notniva".as_bytes())
        || range_is(bytes, start, end, "notnivb".as_bytes())
        || range_is(bytes, start, end, "notnivc".as_bytes())
        || range_is(bytes, start, end, "npar".as_bytes())
        || range_is(bytes, start, end, "nparallel".as_bytes())
        || range_is(bytes, start, end, "nparsl".as_bytes())
        || range_is(bytes, start, end, "npart".as_bytes())
        || range_is(bytes, start, end, "npolint".as_bytes())
        || range_is(bytes, start, end, "npr".as_bytes())
        || range_is(bytes, start, end, "nprcue".as_bytes())
        || range_is(bytes, start, end, "npre".as_bytes())
        || range_is(bytes, start, end, "nprec".as_bytes())
        || range_is(bytes, start, end, "npreceq".as_bytes())
        || range_is(bytes, start, end, "nrArr".as_bytes())
}

/// Whether the text is one of the names from `nrarr` to `nsubseteqq`.
pub open spec fn named_59(text: Seq<u8>) -> bool {
    ||| text == "nrarr".spec_bytes()
    ||| text == "nrarrc".spec_bytes()
    ||| text == "nrarrw".spec_bytes()
    ||| text == "nrightarrow".spec_bytes()
    ||| text == "nrtri".spec_bytes()
    ||| text == "nrtrie".spec_bytes()
    ||| text == "nsc".spec_bytes()
    ||| text == "nsccue".spec_bytes()
    ||| text == "nsce".spec_bytes()
    ||| text == "nscr".spec_bytes()
    ||| text == "nshortmid".spec_bytes()
    ||| text == "nshortparallel".spec_bytes()
    ||| text == "nsim".spec_bytes()
    ||| text == "nsime".spec_bytes()
    ||| text == "nsimeq".spec_bytes()
    ||| text == "nsmid".spec_bytes()
    ||| text == "nspar".spec_bytes()
    ||| text == "nsqsube".spec_bytes()
    ||| text == "nsqsupe".spec_bytes()
    ||| text == "nsub".spec_bytes()
    ||| text == "nsubE".spec_bytes()
    ||| text == "nsube".spec_bytes()
    ||| text == "nsubset".spec_bytes()
    ||| text == "nsubseteq".spec_bytes()
    ||| text == "nsubseteqq".spec_bytes()
}

/// Whether the bytes `start..end` are one of the names from `nrarr` to
/// `nsubseteqq`.
fn is_named_59(bytes: &[u8], start: usize, end: usize) -> (is: bool)
    requires
        start <= end <= bytes.len(),
    ensures
        is == named_59(bytes@.subrange(start as int, end as int)),
{
    range_is(bytes, start, end, "nrarr".as_bytes())
        || range_is(bytes, start, end, "nrarrc".as_bytes())
        || range_is(bytes, start, end, "nrarrw".as_bytes())
        || range_is(bytes, start, end, "nrightarrow".as_bytes())
        || range_is(bytes, start, end, "nrtri".as_bytes())
        || range_is(bytes, start, end, "nrtrie".as_bytes())
        || range_is(bytes, start, end, "nsc".as_bytes())
        || range_is(bytes, start, end, "nsccue".as_bytes())
        || range_is(bytes, start, end, "nsce".as_bytes())
        || range_is(bytes, start, end, "nscr".as_bytes())
        || range_is(bytes, start, end, "nshortmid".as_bytes())
        || range_is(bytes, start, end, "nshortparallel".as_bytes())
        || range_is(bytes, start, end, "nsim".as_bytes())
        || range_is(bytes, start, end, "nsime".as_bytes())
        || range_is(bytes, start, end, "nsimeq".as_bytes())
        || range_is(bytes, start, end, "nsmid".as_bytes())
        || range_is(bytes, start, end, "nspar".as_bytes())
        || range_is(bytes, start, end, "nsqsube".as_bytes())
        || range_is(bytes, start, end, "nsqsupe".as_bytes())
        || range_is(bytes, start, end, "nsub".as_bytes())
        || range_is(bytes, start, end, "nsubE".as_bytes())
        || range_is(bytes, start, end, "nsube".as_bytes())
        || range_is(bytes, start, end, "nsubset".as_bytes())
        || range_is(bytes, start, end, "nsubseteq".as_bytes())
        || range_is(bytes, start, end, "nsubseteqq".as_bytes())
}

/// Whether the text is one of the names from `nsucc` to `nvgt`.
pub open spec fn named_60(text: Seq<u8>) -> bool {
    ||| text == "nsucc".spec_bytes()
    ||| text == "nsucceq".spec_bytes()
    ||| text == "nsup".spec_bytes()
    ||| text == "nsupE".spec_bytes()
    ||| text == "nsupe".spec_bytes()
    ||| text == "nsupset".spec_bytes()
    ||| text == "nsupseteq".spec_bytes()
    ||| text == "nsupseteqq".spec_bytes()
    ||| text == "ntgl".spec_bytes()
    ||| text == "ntilde".spec_bytes()
    ||| text == "ntlg".spec_bytes()
    ||| text == "ntriangleleft".spec_bytes()
    ||| text == "ntrianglelefteq".spec_bytes()
    ||| text == "ntriangleright".spec_bytes()
    ||| text == "ntrianglerighteq".spec_bytes()
    ||| text == "nu".spec_bytes()
    ||| text == "num".spec_bytes()
    ||| text == "numero".spec_bytes()
    ||| text == "numsp".spec_bytes()
    ||| text == "nvDash".spec_bytes()
    ||| text == "nvHarr".spec_bytes()
    ||| text == "nvap".spec_bytes()
    ||| text == "nvdash".spec_bytes()
    ||| text == "nvge".spec_bytes()
    ||| text == "nvgt".spec_bytes()
}

/// Whether the bytes `start..end` are one of the names from `nsucc` to
/// `nvgt`.
fn is_named_60(bytes: &[u8], start: usize, end: usize) -> (is: bool)
    requires
        start <= end <= bytes.len(),
    ensures
        is == named_60(bytes@.subrange(start as int, end as int)),
{
    range_is(bytes, start, end, "nsucc".as_bytes())
        || range_is(bytes, start, end, "nsucceq".as_bytes())
        || range_is(bytes, start, end, "nsup".as_bytes())
        || range_is(bytes, start, end, "nsupE".as_bytes())
        || range_is(bytes, start, end, "nsupe".as_bytes())
        || range_is(bytes, start, end, "nsupset".as_bytes())
        || range_is(bytes, start, end, "nsupseteq".as_bytes())
        || range_is(bytes, start, end, "nsupseteqq".as_bytes())
        || range_is(bytes, start, end, "ntgl".as_bytes())
        || range_is(bytes, start, end, "ntilde".as_bytes())
        || range_is(bytes, start, end, "ntlg".as_bytes())
        || range_is(bytes, start, end, "ntriangleleft".as_bytes())
        || range_is(bytes, start, end, "ntrianglelefteq".as_bytes())
        || range_is(bytes, start, end, "ntriangleright".as_bytes())
        || range_is(bytes, start, end, "ntrianglerighteq".as_bytes())
        || range_is(bytes, start, end, "nu".as_bytes())
        || range_is(bytes, start, end, "num".as_bytes())
        || range_is(bytes, start, end, "numero".as_bytes())
        || range_is(bytes, start, end, "numsp".as_bytes())
        || range_is(bytes, start, end, "nvDash".as_bytes())
        || range_is(bytes, start, end, "nvHarr".as_bytes())
        || range_is(bytes, start, end, "nvap".as_bytes())
        || range_is(bytes, start, end, "nvdash".as_bytes())
        || range_is(bytes, start, end, "nvge".as_bytes())
        || range_is(bytes, start, end, "nvgt".as_bytes())
}

/// Whether the text is one of the names from `nvinfin` to `oelig`.
pub open spec fn named_61(text: Seq<u8>) -> bool {
    ||| text == "nvinfin".spec_bytes()
    ||| text == "nvlArr".spec_bytes()
    ||| text == "nvle".spec_bytes()
    ||| text == "nvlt".spec_bytes()
    ||| text == "nvltrie".spec_bytes()
    ||| text == "nvrArr".spec_bytes()
    ||| text == "nvrtrie".spec_bytes()
    ||| text == "nvsim".spec_bytes()
    ||| text == "nwArr".spec_bytes()
    ||| text == "nwarhk".spec_bytes()
    ||| text == "nwarr".spec_bytes()
    ||| text == "nwarrow".spec_bytes()
    ||| text == "nwnear".spec_bytes()
    ||| text == "oS".spec_bytes()
    ||| text == "oacute".spec_bytes()
    ||| text == "oast".spec_bytes()
    ||| text == "ocir".spec_bytes()
    ||| text == "ocirc".spec_bytes()
    ||| text == "ocy".spec_bytes()
    ||| text == "odash".spec_bytes()
    ||| text == "odblac".spec_bytes()
    ||| text == "odiv".spec_bytes()
    ||| text == "odot".spec_bytes()
    ||| text == "odsold".spec_bytes()
    ||| text == "oelig".spec_bytes()
}

/// Whether the bytes `start..end` are one of the names from `nvinfin` to
/// `oelig`.
fn is_named_61(bytes: &[u8], start: usize, end: usize) -> (is: bool)
    requires
        start <= end <= bytes.len(),
    ensures
        is == named_61(bytes@.subrange(start as int, end as int)),
{
    range_is(bytes, start, end, "nvinfin".as_bytes())
        || range_is(bytes, start, end, "nvlArr".as_bytes())
        || range_is(bytes, start, end, "nvle".as_bytes())
        || range_is(bytes, start, end, "nvlt".as_bytes())
        || range_is(bytes, start, end, "nvltrie".as_bytes())
        || range_is(bytes, start, end, "nvrArr".as_bytes())
        || range_is(bytes, start, end, "nvrtrie".as_bytes())
        || range_is(bytes, start, end, "nvsim".as_bytes())
        || range_is(bytes, start, end, "nwArr".as_bytes())
        || range_is(bytes, start, end, "nwarhk".as_bytes())
        || range_is(bytes, start, end, "nwarr".as_bytes())
        || range_is(bytes, start, end, "nwarrow".as_bytes())
        || range_is(bytes, start, end, "nwnear".as_bytes())
        || range_is(bytes, start, end, "oS".as_bytes())
        || range_is(bytes, start, end, "oacute".as_bytes())
        || range_is(bytes, start, end, "oast".as_bytes())
        || range_is(bytes, start, end, "ocir".as_bytes())
        || range_is(bytes, start, end, "ocirc".as_bytes())
        || range_is(bytes, start, end, "ocy".as_bytes())
        || range_is(bytes, start, end, "odash".as_bytes())
        || range_is(bytes, start, end, "odblac".as_bytes())
        || range_is(bytes, start, end, "odiv".as_bytes())
        || range_is(bytes, start, end, "odot".as_bytes())
        || range_is(bytes, start, end, "odsold".as_bytes())
        || range_is(bytes, start, end, "oelig".as_bytes())
}

/// Whether the text is one of the names from `ofcir` to `ord`.
pub open spec fn named_62(text: Seq<u8>) -> bool {
    ||| text == "ofcir".spec_bytes()
    ||| text == "ofr".spec_bytes()
    ||| text == "ogon".spec_bytes()
    ||| text == "ograve".spec_bytes()
    ||| text == "ogt".spec_bytes()
    ||| text == "ohbar".spec_bytes()
    ||| text == "ohm".spec_bytes()
    ||| text == "oint".spec_bytes()
    ||| text == "olarr".spec_bytes()
    ||| text == "olcir".spec_bytes()
    ||| text == "olcross".spec_bytes()
    ||| text == "oline".spec_bytes()
    ||| text == "olt".spec_bytes()
    ||| text == "omacr".spec_bytes()
    ||| text == "omega".spec_bytes()
    ||| text == "omicron".spec_bytes()
    ||| text == "omid".spec_bytes()
    ||| text == "ominus".spec_bytes()
    ||| text == "oopf".spec_bytes()
    ||| text == "opar".spec_bytes()
    ||| text == "operp".spec_bytes()
    ||| text == "oplus".spec_bytes()
    ||| text == "or".spec_bytes()
    ||| text == "orarr".spec_bytes()
    ||| text == "ord".spec_bytes()
}

/// Whether the bytes `start..end` are one of the names from `ofcir` to
/// `ord`.
fn is_named_62(bytes: &[u8], start: usize, end: usize) -> (is: bool)
    requires
        start <= end <= bytes.len(),
    ensures
        is == named_62(bytes@.subrange(start as int, end as int)),
{
    range_is(bytes, start, end, "ofcir".as_bytes())
        || range_is(bytes, start, end, "ofr".as_bytes())
        || range_is(bytes, start, end, "ogon".as_bytes())
        || range_is(bytes, start, end, "ograve".as_bytes())
        || range_is(bytes, start, end, "ogt".as_bytes())
        || range_is(bytes, start, end, "ohbar".as_bytes())
        || range_is(bytes, start, end, "ohm".as_bytes())
        || range_is(bytes, start, end, "oint".as_bytes())
        || range_is(bytes, start, end, "olarr".as_bytes())
        || range_is(bytes, start, end, "olcir".as_bytes())
        || range_is(bytes, start, end, "olcross".as_bytes())
        || range_is(bytes, start, end, "oline".as_bytes())
        || range_is(bytes, start, end, "olt".as_bytes())
        || range_is(bytes, start, end, "omacr".as_bytes())
        || range_is(bytes, start, end, "omega".as_bytes())
        || range_is(bytes, start, end, "omicron".as_bytes())
        || range_is(bytes, start, end, "omid".as_bytes())
        || range_is(bytes, start, end, "ominus".as_bytes())
        || range_is(bytes, start, end, "oopf".as_bytes())
        || range_is(bytes, start, end, "opar".as_bytes())
        || range_is(bytes, start, end, "operp".as_bytes())
        || range_is(bytes, start, end, "oplus".as_bytes())
        || range_is(bytes, start, end, "or".as_bytes())
        || range_is(bytes, start, end, "orarr".as_bytes())
        || range_is(bytes, start, end, "ord".as_bytes())
}

/// Whether the text is one of the names from `order` to `period`.
pub open spec fn named_63(text: Seq<u8>) -> bool {
    ||| text == "order".spec_bytes()
    ||| text == "orderof".spec_bytes()
    ||| text == "ordf".spec_bytes()
    ||| text == "ordm".spec_bytes()
    ||| text == "origof".spec_bytes()
    ||| text == "oror".spec_bytes()
    ||| text == "orslope".spec_bytes()
    ||| text == "orv".spec_bytes()
    ||| text == "oscr".spec_bytes()
    ||| text == "oslash".spec_bytes()
    ||| text == "osol".spec_bytes()
    ||| text == "otilde".spec_bytes()
    ||| text == "otimes".spec_bytes()
    ||| text == "otimesas".spec_bytes()
    ||| text == "ouml".spec_bytes()
    ||| text == "ovbar".spec_bytes()
    ||| text == "par".spec_bytes()
    ||| text == "para".spec_bytes()
    ||| text == "parallel".spec_bytes()
    ||| text == "parsim".spec_bytes()
    ||| text == "parsl".spec_bytes()
    ||| text == "part".spec_bytes()
    ||| text == "pcy".spec_bytes()
    ||| text == "percnt".spec_bytes()
    ||| text == "period".spec_bytes()
}

/// Whether the bytes `start..end` are one of the names from `order` to
/// `period`.
fn is_named_63(bytes: &[u8], start: usize, end: usize) -> (is: bool)
    requires
        start <= end <= bytes.len(),
    ensures
        is == named_63(bytes@.subrange(start as int, end as int)),
{
    range_is(bytes, start, end, "order".as_bytes())
        || range_is(bytes, start, end, "orderof".as_bytes())
        || range_is(bytes, start, end, "ordf".as_bytes())
        || range_is(bytes, start, end, "ordm".as_bytes())
        || range_is(bytes, start, end, "origof".as_bytes())
        || range_is(bytes, start, end, "oror".as_bytes())
        || range_is(bytes, start, end, "orslope".as_bytes())
        || range_is(bytes, start, end, "orv".as_bytes())
        || range_is(bytes, start, end, "oscr".as_bytes())
        || range_is(bytes, start, end, "oslash".as_bytes())
        || range_is(bytes, start, end, "osol".as_bytes())
        || range_is(bytes, start, end, "otilde".as_bytes())
        || range_is(bytes, start, end, "otimes".as_bytes())
        || range_is(bytes, start, end, "otimesas".as_bytes())
        || range_is(bytes, start, end, "ouml".as_bytes())
        || range_is(bytes, start, end, "ovbar".as_bytes())
        || range_is(bytes, start, end, "par".as_bytes())
        || range_is(bytes, start, end, "para".as_bytes())
        || range_is(bytes, start, end, "parallel".as_bytes())
        || range_is(bytes, start, end, "parsim".as_bytes())
        || range_is(bytes, start, end, "parsl".as_bytes())
        || range_is(bytes, start, end, "part".as_bytes())
        || range_is(bytes, start, end, "pcy".as_bytes())
        || range_is(bytes, start, end, "percnt".as_bytes())
        || range_is(bytes, start, end, "period".as_bytes())
}

/// Whether the text is one of the names from `permil` to `pm`.
pub open spec fn named_64(text: Seq<u8>) -> bool {
    ||| text == "permil".spec_bytes()
    ||| text == "perp".spec_bytes()
    ||| text == "pertenk".spec_bytes()
    ||| text == "pfr".spec_bytes()
    ||| text == "phi".spec_bytes()
    ||| text == "phiv".spec_bytes()
    ||| text == "phmmat".spec_bytes()
    ||| text == "phone".spec_bytes()
    ||| text == "pi".spec_bytes()
    ||| text == "pitchfork".spec_bytes()
    ||| text == "piv".spec_bytes()
    ||| text == "planck".spec_bytes()
    ||| text == "planckh".spec_bytes()
    ||| text == "plankv".spec_bytes()
    ||| text == "plus".spec_bytes()
    ||| text == "plusacir".spec_bytes()
    ||| text == "plusb".spec_bytes()
    ||| text == "pluscir".spec_bytes()
    ||| text == "plusdo".spec_bytes()
    ||| text == "plusdu".spec_bytes()
    ||| text == "pluse".spec_bytes()
    ||| text == "plusmn".spec_bytes()
    ||| text == "plussim".spec_bytes()
    ||| text == "plustwo".spec_bytes()
    ||| text == "pm".spec_bytes()
}

/// Whether the bytes `start..end` are one of the names from `permil` to
/// `pm`.
fn is_named_64(bytes: &[u8], start: usize, end: usize) -> (is: bool)
    requires
        start <= end <= bytes.len(),
    ensures
        is == named_64(bytes@.subrange(start as int, end as int)),
{
    range_is(bytes, start, end, "permil".as_bytes())
        || range_is(bytes, start, end, "perp".as_bytes())
        || range_is(bytes, start, end, "pertenk".as_bytes())
        || range_is(bytes, start, end, "pfr".as_bytes())
        || range_is(bytes, start, end, "phi".as_bytes())
        || range_is(bytes, start, end, "phiv".as_bytes())
        || range_is(bytes, start, end, "phmmat".as_bytes())
        || range_is(bytes, start, end, "phone".as_bytes())
        || range_is(bytes, start, end, "pi".as_bytes())
        || range_is(bytes, start, end, "pitchfork".as_bytes())
        || range_is(bytes, start, end, "piv".as_bytes())
        || range_is(bytes, start, end, "planck".as_bytes())
        || range_is(bytes, start, end, "planckh".as_bytes())
        || range_is(bytes, start, end, "plankv".as_bytes())
        || range_is(bytes, start, end, "plus".as_bytes())
        || range_is(bytes, start, end, "plusacir".as_bytes())
        || range_is(bytes, start, end, "plusb".as_bytes())
        || range_is(bytes, start, end, "pluscir".as_bytes())
        || range_is(bytes, start, end, "plusdo".as_bytes())
        || range_is(bytes, start, end, "plusdu".as_bytes())
        || range_is(bytes, start, end, "pluse".as_bytes())
        || range_is(bytes, start, end, "plusmn".as_bytes())
        || range_is(bytes, start, end, "plussim".as_bytes())
        || range_is(bytes, start, end, "plustwo".as_bytes())
        || range_is(bytes, start, end, "pm".as_bytes())
}

/// Whether the text is one of the names from `pointint` to `profsurf`.
pub open spec fn named_65(text: Seq<u8>) -> bool {
    ||| text == "pointint".spec_bytes()
    ||| text == "popf".spec_bytes()
    ||| text == "pound".spec_bytes()
    ||| text == "pr".spec_bytes()
    ||| text == "prE".spec_bytes()
    ||| text == "prap".spec_bytes()
    ||| text == "prcue".spec_bytes()
    ||| text == "pre".spec_bytes()
    ||| text == "prec".spec_bytes()
    ||| text == "precapprox".spec_bytes()
    ||| text == "preccurlyeq".spec_bytes()
    ||| text == "preceq".spec_bytes()
    ||| text == "precnapprox".spec_bytes()
    ||| text == "precneqq".spec_bytes()
    ||| text == "precnsim".spec_bytes()
    ||| text == "precsim".spec_bytes()
    ||| text == "prime".spec_bytes()
    ||| text == "primes".spec_bytes()
    ||| text == "prnE".spec_bytes()
    ||| text == "prnap".spec_bytes()
    ||| text == "prnsim".spec_bytes()
    ||| text == "prod".spec_bytes()
    ||| text == "profalar".spec_bytes()
    ||| text == "profline".spec_bytes()
    ||| text == "profsurf".spec_bytes()
}

/// Whether the bytes `start..end` are one of the names from `pointint` to
/// `profsurf`.
fn is_named_65(bytes: &[u8], start: usize, end: usize) -> (is: bool)
    requires
        start <= end <= bytes.len(),
    ensures
        is == named_65(bytes@.subrange(start as int, end as int)),
{
    range_is(bytes, start, end, "pointint".as_bytes())
        || range_is(bytes, start, end, "popf".as_bytes())
        || range_is(bytes, start, end, "pound".as_bytes())
        || range_is(bytes, start, end, "pr".as_bytes())
        || range_is(bytes, start, end, "prE".as_bytes())
        || range_is(bytes, start, end, "prap".as_bytes())
        || range_is(bytes, start, end, "prcue".as_bytes())
        || range_is(bytes, start, end, "pre".as_bytes())
        || range_is(bytes, start, end, "prec".as_bytes())
        || range_is(bytes, start, end, "precapprox".as_bytes())
        || range_is(bytes, start, end, "preccurlyeq".as_bytes())
        || range_is(bytes, start, end, "preceq".as_bytes())
        || range_is(bytes, start, end, "precnapprox".as_bytes())
        || range_is(bytes, start, end, "precneqq".as_bytes())
        || range_is(bytes, start, end, "precnsim".as_bytes())
        || range_is(bytes, start, end, "precsim".as_bytes())
        || range_is(bytes, start, end, "prime".as_bytes())
        || range_is(bytes, start, end, "primes".as_bytes())
        || range_is(bytes, start, end, "prnE".as_bytes())
        || range_is(bytes, start, end, "prnap".as_bytes())
        || range_is(bytes, start, end, "prnsim".as_bytes())
        || range_is(bytes, start, end, "prod".as_bytes())
        || range_is(bytes, start, end, "profalar".as_bytes())
        || range_is(bytes, start, end, "profline".as_bytes())
        || range_is(bytes, start, end, "profsurf".as_bytes())
}

/// Whether the text is one of the names from `prop` to `radic`.
pub open spec fn named_66(text: Seq<u8>) -> bool {
    ||| text == "prop".spec_bytes()
    ||| text == "propto".spec_bytes()
    ||| text == "prsim".spec_bytes()
    ||| text == "prurel".spec_bytes()
    ||| text == "pscr".spec_bytes()
    ||| text == "psi".spec_bytes()
    ||| text == "puncsp".spec_bytes()
    ||| text == "qfr".spec_bytes()
    ||| text == "qint".spec_bytes()
    ||| text == "qopf".spec_bytes()
    ||| text == "qprime".spec_bytes()
    ||| text == "qscr".spec_bytes()
    ||| text == "quaternions".spec_bytes()
    ||| text == "quatint".spec_bytes()
    ||| text == "quest".spec_bytes()
    ||| text == "questeq".spec_bytes()
    ||| text == "quot".spec_bytes()
    ||| text == "rAarr".spec_bytes()
    ||| text == "rArr".spec_bytes()
    ||| text == "rAtail".spec_bytes()
    ||| text == "rBarr".spec_bytes()
    ||| text == "rHar".spec_bytes()
    ||| text == "race".spec_bytes()
    ||| text == "racute".spec_bytes()
    ||| text == "radic".spec_bytes()
}

/// Whether the bytes `start..end` are one of the names from `prop` to
/// `radic`.
fn is_named_66(bytes: &[u8], start: usize, end: usize) -> (is: bool)
    requires
        start <= end <= bytes.len(),
    ensures
        is == named_66(bytes@.subrange(start as int, end as int)),
{
    range_is(bytes, start, end, "prop".as_bytes())
        || range_is(bytes, start, end, "propto".as_bytes())
        || range_is(bytes, start, end, "prsim".as_bytes())
        || range_is(bytes, start, end, "prurel".as_bytes())
        || range_is(bytes, start, end, "pscr".as_bytes())
        || range_is(bytes, start, end, "psi".as_bytes())
        || range_is(bytes, start, end, "puncsp".as_bytes())
        || range_is(bytes, start, end, "qfr".as_bytes())
        || range_is(bytes, start, end, "qint".as_bytes())
        || range_is(bytes, start, end, "qopf".as_bytes())
        || range_is(bytes, start, end, "qprime".as_bytes())
        || range_is(bytes, start, end, "qscr".as_bytes())
        || range_is(bytes, start, end, "quaternions".as_bytes())
        || range_is(bytes, start, end, "quatint".as_bytes())
        || range_is(bytes, start, end, "quest".as_bytes())
        || range_is(bytes, start, end, "questeq".as_bytes())
        || range_is(bytes, start, end, "quot".as_bytes())
        || range_is(bytes, start, end, "rAarr".as_bytes())
        || range_is(bytes, start, end, "rArr".as_bytes())
        || range_is(bytes, start, end, "rAtail".as_bytes())
        || range_is(bytes, start, end, "rBarr".as_bytes())
        || range_is(bytes, start, end, "rHar".as_bytes())
        || range_is(bytes, start, end, "race".as_bytes())
        || range_is(bytes, start, end, "racute".as_bytes())
        || range_is(bytes, start, end, "radic".as_bytes())
}

/// Whether the text is one of the names from `raemptyv` to `rbrack`.
pub open spec fn named_67(text: Seq<u8>) -> bool {
    ||| text == "raemptyv".spec_bytes()
    ||| text == "rang".spec_bytes()
    ||| text == "rangd".spec_bytes()
    ||| text == "range".spec_bytes()
    ||| text == "rangle".spec_bytes()
    ||| text == "raquo".spec_bytes()
    ||| text == "rarr".spec_bytes()
    ||| text == "rarrap".spec_bytes()
    ||| text == "rarrb".spec_bytes()
    ||| text == "rarrbfs".spec_bytes()
    ||| text == "rarrc".spec_bytes()
    ||| text == "rarrfs".spec_bytes()
    ||| text == "rarrhk".spec_bytes()
    ||| text == "rarrlp".spec_bytes()
    ||| text == "rarrpl".spec_bytes()
    ||| text == "rarrsim".spec_bytes()
    ||| text == "rarrtl".spec_bytes()
    ||| text == "rarrw".spec_bytes()
    ||| text == "ratail".spec_bytes()
    ||| text == "ratio".spec_bytes()
    ||| text == "rationals".spec_bytes()
    ||| text == "rbarr".spec_bytes()
    ||| text == "rbbrk".spec_bytes()
    ||| text == "rbrace".spec_bytes()
    ||| text == "rbrack".spec_bytes()
}

/// Whether the bytes `start..end` are one of the names from `raemptyv` to
/// `rbrack`.
fn is_named_67(bytes: &[u8], start: usize, end: usize) -> (is: bool)
    requires
        start <= end <= bytes.len(),
    ensures
        is == named_67(bytes@.subrange(start as int, end as int)),
{
    range_is(bytes, start, end, "raemptyv".as_bytes())
        || range_is(bytes, start, end, "rang".as_bytes())
        || range_is(bytes, start, end, "rangd".as_bytes())
        || range_is(bytes, start, end, "range".as_bytes())
        || range_is(bytes, start, end, "rangle".as_bytes())
        || range_is(bytes, start, end, "raquo".as_bytes())
        || range_is(bytes, start, end, "rarr".as_bytes())
        || range_is(bytes, start, end, "rarrap".as_bytes())
        || range_is(bytes, start, end, "rarrb".as_bytes())
        || range_is(bytes, start, end, "rarrbfs".as_bytes())
        || range_is(bytes, start, end, "rarrc".as_bytes())
        || range_is(bytes, start, end, "rarrfs".as_bytes())
        || range_is(bytes, start, end, "rarrhk".as_bytes())
        || range_is(bytes, start, end, "rarrlp".as_bytes())
        || range_is(bytes, start, end, "rarrpl".as_bytes())
        || range_is(bytes, start, end, "rarrsim".as_bytes())
        || range_is(bytes, start, end, "rarrtl".as_bytes())
        || range_is(bytes, start, end, "rarrw".as_bytes())
        || range_is(bytes, start, end, "ratail".as_bytes())
        || range_is(bytes, start, end, "ratio".as_bytes())
        || range_is(bytes, start, end, "rationals".as_bytes())
        || range_is(bytes, start, end, "rbarr".as_bytes())
        || range_is(bytes, start, end, "rbbrk".as_bytes())
        || range_is(bytes, start, end, "rbrace".as_bytes())
        || range_is(bytes, start, end, "rbrack".as_bytes())
}

/// Whether the text is one of the names from `rbrke` to `rharul`.
pub open spec fn named_68(text: Seq<u8>) -> bool {
    ||| text == "rbrke".spec_bytes()
    ||| text == "rbrksld".spec_bytes()
    ||| text == "rbrkslu".spec_bytes()
    ||| text == "rcaron".spec_bytes()
    ||| text == "rcedil".spec_bytes()
    ||| text == "rceil".spec_bytes()
    ||| text == "rcub".spec_bytes()
    ||| text == "rcy".spec_bytes()
    ||| text == "rdca".spec_bytes()
    ||| text == "rdldhar".spec_bytes()
    ||| text == "rdquo".spec_bytes()
    ||| text == "rdquor".spec_bytes()
    ||| text == "rdsh".spec_bytes()
    ||| text == "real".spec_bytes()
    ||| text == "realine".spec_bytes()
    ||| text == "realpart".spec_bytes()
    ||| text == "reals".spec_bytes()
    ||| text == "rect".spec_bytes()
    ||| text == "reg".spec_bytes()
    ||| text == "rfisht".spec_bytes()
    ||| text == "rfloor".spec_bytes()
    ||| text == "rfr".spec_bytes()
    ||| text == "rhard".spec_bytes()
    ||| text == "rharu".spec_bytes()
    ||| text == "rharul".spec_bytes()
}

/// Whether the bytes `start..end` are one of the names from `rbrke` to
/// `rharul`.
fn is_named_68(bytes: &[u8], start: usize, end: usize) -> (is: bool)
    requires
        start <= end <= bytes.len(),
    ensures
        is == named_68(bytes@.subrange(start as int, end as int)),
{
    range_is(bytes, start, end, "rbrke".as_bytes())
        || range_is(bytes, start, end, "rbrksld".as_bytes())
        || range_is(bytes, start, end, "rbrkslu".as_bytes())
        || range_is(bytes, start, end, "rcaron".as_bytes())
        || range_is(bytes, start, end, "rcedil".as_bytes())
        || range_is(bytes, start, end, "rceil".as_bytes())
        || range_is(bytes, start, end, "rcub".as_bytes())
        || range_is(bytes, start, end, "rcy".as_bytes())
        || range_is(bytes, start, end, "rdca".as_bytes())
        || range_is(bytes, start, end, "rdldhar".as_bytes())
        || range_is(bytes, start, end, "rdquo".as_bytes())
        || range_is(bytes, start, end, "rdquor".as_bytes())
        || range_is(bytes, start, end, "rdsh".as_bytes())
        || range_is(bytes, start, end, "real".as_bytes())
        || range_is(bytes, start, end, "realine".as_bytes())
        || range_is(bytes, start, end, "realpart".as_bytes())
        || range_is(bytes, start, end, "reals".as_bytes())
        || range_is(bytes, start, end, "rect".as_bytes())
        || range_is(bytes, start, end, "reg".as_bytes())
        || range_is(bytes, start, end, "rfisht".as_bytes())
        || range_is(bytes, start, end, "rfloor".as_bytes())
        || range_is(bytes, start, end, "rfr".as_bytes())
        || range_is(bytes, start, end, "rhard".as_bytes())
        || range_is(bytes, start, end, "rharu".as_bytes())
        || range_is(bytes, start, end, "rharul".as_bytes())
}

/// Whether the text is one of the names from `rho` to `roplus`.
pub open spec fn named_69(text: Seq<u8>) -> bool {
    ||| text == "rho".spec_bytes()
    ||| text == "rhov".spec_bytes()
    ||| text == "rightarrow".spec_bytes()
    ||| text == "rightarrowtail".spec_bytes()
    ||| text == "rightharpoondown".spec_bytes()
    ||| text == "rightharpoonup".spec_bytes()
    ||| text == "rightleftarrows".spec_bytes()
    ||| text == "rightleftharpoons".spec_bytes()
    ||| text == "rightrightarrows".spec_bytes()
    ||| text == "rightsquigarrow".spec_bytes()
    ||| text == "rightthreetimes".spec_bytes()
    ||| text == "ring".spec_bytes()
    ||| text == "risingdotseq".spec_bytes()
    ||| text == "rlarr".spec_bytes()
    ||| text == "rlhar".spec_bytes()
    ||| text == "rlm".spec_bytes()
    ||| text == "rmoust".spec_bytes()
    ||| text == "rmoustache".spec_bytes()
    ||| text == "rnmid".spec_bytes()
    ||| text == "roang".spec_bytes()
    ||| text == "roarr".spec_bytes()
    ||| text == "robrk".spec_bytes()
    ||| text == "ropar".spec_bytes()
    ||| text == "ropf".spec_bytes()
    ||| text == "roplus".spec_bytes()
}

/// Whether the bytes `start..end` are one of the names from `rho` to
/// `roplus`.
fn is_named_69(bytes: &[u8], start: usize, end: usize) -> (is: bool)
    requires
        start <= end <= bytes.len(),
    ensures
        is == named_69(bytes@.subrange(start as int, end as int)),
{
    range_is(bytes, start, end, "rho".as_bytes())
        || range_is(bytes, start, end, "rhov".as_bytes())
        || range_is(bytes, start, end, "rightarrow".as_bytes())
        || range_is(bytes, start, end, "rightarrowtail".as_bytes())
        || range_is(bytes, start, end, "rightharpoondown".as_bytes())
        || range_is(bytes, start, end, "rightharpoonup".as_bytes())
        || range_is(bytes, start, end, "rightleftarrows".as_bytes())
        || range_is(bytes, start, end, "rightleftharpoons".as_bytes())
        || range_is(bytes, start, end, "rightrightarrows".as_bytes())
        || range_is(bytes, start, end, "rightsquigarrow".as_bytes())
        || range_is(bytes, start, end, "rightthreetimes".as_bytes())
        || range_is(bytes, start, end, "ring".as_bytes())
        || range_is(bytes, start, end, "risingdotseq".as_bytes())
        || range_is(bytes, start, end, "rlarr".as_bytes())
        || range_is(bytes, start, end, "rlhar".as_bytes())
        || range_is(bytes, start, end, "rlm".as_bytes())
        || range_is(bytes, start, end, "rmoust".as_bytes())
        || range_is(bytes, start, end, "rmoustache".as_bytes())
        || range_is(bytes, start, end, "rnmid".as_bytes())
        || range_is(bytes, start, end, "roang".as_bytes())
        || range_is(bytes, start, end, "roarr".as_bytes())
        || range_is(bytes, start, end, "robrk".as_bytes())
        || range_is(bytes, start, end, "ropar".as_bytes())
        || range_is(bytes, start, end, "ropf".as_bytes())
        || range_is(bytes, start, end, "roplus".as_bytes())
}

/// Whether the text is one of the names from `rotimes` to `scaron`.
pub open spec fn named_70(text: Seq<u8>) -> bool {
    ||| text == "rotimes".spec_bytes()
    ||| text == "rpar".spec_bytes()
    ||| text == "rpargt".spec_bytes()
    ||| text == "rppolint".spec_bytes()
    ||| text == "rrarr".spec_bytes()
    ||| text == "rsaquo".spec_bytes()
    ||| text == "rscr".spec_bytes()
    ||| text == "rsh".spec_bytes()
    ||| text == "rsqb".spec_bytes()
    ||| text == "rsquo".spec_bytes()
    ||| text == "rsquor".spec_bytes()
    ||| text == "rthree".spec_bytes()
    ||| text == "rtimes".spec_bytes()
    ||| text == "rtri".spec_bytes()
    ||| text == "rtrie".spec_bytes()
    ||| text == "rtrif".spec_bytes()
    ||| text == "rtriltri".spec_bytes()
    ||| text == "ruluhar".spec_bytes()
    ||| text == "rx".spec_bytes()
    ||| text == "sacute".spec_bytes()
    ||| text == "sbquo".spec_bytes()
    ||| text == "sc".spec_bytes()
    ||| text == "scE".spec_bytes()
    ||| text == "scap".spec_bytes()
    ||| text == "scaron".spec_bytes()
}

/// Whether the bytes `start..end` are one of the names from `rotimes` to
/// `scaron`.
fn is_named_70(bytes: &[u8], start: usize, end: usize) -> (is: bool)
    requires
        start <= end <= bytes.len(),
    ensures
        is == named_70(bytes@.subrange(start as int, end as int)),
{
    range_is(bytes, start, end, "rotimes".as_bytes())
        || range_is(bytes, start, end, "rpar".as_bytes())
        || range_is(bytes, start, end, "rpargt".as_bytes())
        || range_is(bytes, start, end, "rppolint".as_bytes())
        || range_is(bytes, start, end, "rrarr".as_bytes())
        || range_is(bytes, start, end, "rsaquo".as_bytes())
        || range_is(bytes, start, end, "rscr".as_bytes())
        || range_is(bytes, start, end, "rsh".as_bytes())
        || range_is(bytes, start, end, "rsqb".as_bytes())
        || range_is(bytes, start, end, "rsquo".as_bytes())
        || range_is(bytes, start, end, "rsquor".as_bytes())
        || range_is(bytes, start, end, "rthree".as_bytes())
        || range_is(bytes, start, end, "rtimes".as_bytes())
        || range_is(bytes, start, end, "rtri".as_bytes())
        || range_is(bytes, start, end, "rtrie".as_bytes())
        || range_is(bytes, start, end, "rtrif".as_bytes())
        || range_is(bytes, start, end, "rtriltri".as_bytes())
        || range_is(bytes, start, end, "ruluhar".as_bytes())
        || range_is(bytes, start, end, "rx".as_bytes())
        || range_is(bytes, start, end, "sacute".as_bytes())
        || range_is(bytes, start, end, "sbquo".as_bytes())
        || range_is(bytes, start, end, "sc".as_bytes())
        || range_is(bytes, start, end, "scE".as_bytes())
        || range_is(bytes, start, end, "scap".as_bytes())
        || range_is(bytes, start, end, "scaron".as_bytes())
}

/// Whether the text is one of the names from `sccue` to `sfrown`.
pub open spec fn named_71(text: Seq<u8>) -> bool {
    ||| text == "sccue".spec_bytes()
    ||| text == "sce".spec_bytes()
    ||| text == "scedil".spec_bytes()
    ||| text == "scirc".spec_bytes()
    ||| text == "scnE".spec_bytes()
    ||| text == "scnap".spec_bytes()
    ||| text == "scnsim".spec_bytes()
    ||| text == "scpolint".spec_bytes()
    ||| text == "scsim".spec_bytes()
    ||| text == "scy".spec_bytes()
    ||| text == "sdot".spec_bytes()
    ||| text == "sdotb".spec_bytes()
    ||| text == "sdote".spec_bytes()
    ||| text == "seArr".spec_bytes()
    ||| text == "searhk".spec_bytes()
    ||| text == "searr".spec_bytes()
    ||| text == "searrow".spec_bytes()
    ||| text == "sect".spec_bytes()
    ||| text == "semi".spec_bytes()
    ||| text == "seswar".spec_bytes()
    ||| text == "setminus".spec_bytes()
    ||| text == "setmn".spec_bytes()
    ||| text == "sext".spec_bytes()
    ||| text == "sfr".spec_bytes()
    ||| text == "sfrown".spec_bytes()
}

/// Whether the bytes `start..end` are one of the names from `sccue` to
/// `sfrown`.
fn is_named_71(bytes: &[u8], start: usize, end: usize) -> (is: bool)
    requires
        start <= end <= bytes.len(),
    ensures
        is == named_71(bytes@.subrange(start as int, end as int)),
{
    range_is(bytes, start, end, "sccue".as_bytes())
        || range_is(bytes, start, end, "sce".as_bytes())
        || range_is(bytes, start, end, "scedil".as_bytes())
        || range_is(bytes, start, end, "scirc".as_bytes())
        || range_is(bytes, start, end, "scnE".as_bytes())
        || range_is(bytes, start, end, "scnap".as_bytes())
        || range_is(bytes, start, end, "scnsim".as_bytes())
        || range_is(bytes, start, end, "scpolint".as_bytes())
        || range_is(bytes, start, end, "scsim".as_bytes())
        || range_is(bytes, start, end, "scy".as_bytes())
        || range_is(bytes, start, end, "sdot".as_bytes())
        || range_is(bytes, start, end, "sdotb".as_bytes())
        || range_is(bytes, start, end, "sdote".as_bytes())
        || range_is(bytes, start, end, "seArr".as_bytes())
        || range_is(bytes, start, end, "searhk".as_bytes())
        || range_is(bytes, start, end, "searr".as_bytes())
        || range_is(bytes, start, end, "searrow".as_bytes())
        || range_is(bytes, start, end, "sect".as_bytes())
        || range_is(bytes, start, end, "semi".as_bytes())
        || range_is(bytes, start, end, "seswar".as_bytes())
        || range_is(bytes, start, end, "setminus".as_bytes())
        || range_is(bytes, start, end, "setmn".as_bytes())
        || range_is(bytes, start, end, "sext".as_bytes())
        || range_is(bytes, start, end, "sfr".as_bytes())
        || range_is(bytes, start, end, "sfrown".as_bytes())
}

/// Whether the text is one of the names from `sharp` to `smid`.
pub open spec fn named_72(text: Seq<u8>) -> bool {
    ||| text == "sharp".spec_bytes()
    ||| text == "shchcy".spec_bytes()
    ||| text == "shcy".spec_bytes()
    ||| text == "shortmid".spec_bytes()
    ||| text == "shortparallel".spec_bytes()
    ||| text == "shy".spec_bytes()
    ||| text == "sigma".spec_bytes()
    ||| text == "sigmaf".spec_bytes()
    ||| text == "sigmav".spec_bytes()
    ||| text == "sim".spec_bytes()
    ||| text == "simdot".spec_bytes()
    ||| text == "sime".spec_bytes()
    ||| text == "simeq".spec_bytes()
    ||| text == "simg".spec_bytes()
    ||| text == "simgE".spec_bytes()
    ||| text == "siml".spec_bytes()
    ||| text == "simlE".spec_bytes()
    ||| text == "simne".spec_bytes()
    ||| text == "simplus".spec_bytes()
    ||| text == "simrarr".spec_bytes()
    ||| text == "slarr".spec_bytes()
    ||| text == "smallsetminus".spec_bytes()
    ||| text == "smashp".spec_bytes()
    ||| text == "smeparsl".spec_bytes()
    ||| text == "smid".spec_bytes()
}

/// Whether the bytes `start..end` are one of the names from `sharp` to
/// `smid`.
fn is_named_72(bytes: &[u8], start: usize, end: usize) -> (is: bool)
    requires
        start <= end <= bytes.len(),
    ensures
        is == named_72(bytes@.subrange(start as int, end as int)),
{
    range_is(bytes, start, end, "sharp".as_bytes())
        || range_is(bytes, start, end, "shchcy".as_bytes())
        || range_is(bytes, start, end, "shcy".as_bytes())
        || range_is(bytes, start, end, "shortmid".as_bytes())
        || range_is(bytes, start, end, "shortparallel".as_bytes())
        || range_is(bytes, start, end, "shy".as_bytes())
        || range_is(bytes, start, end, "sigma".as_bytes())
        || range_is(bytes, start, end, "sigmaf".as_bytes())
        || range_is(bytes, start, end, "sigmav".as_bytes())
        || range_is(bytes, start, end, "sim".as_bytes())
        || range_is(bytes, start, end, "simdot".as_bytes())
        || range_is(bytes, start, end, "sime".as_bytes())
        || range_is(bytes, start, end, "simeq".as_bytes())
        || range_is(bytes, start, end, "simg".as_bytes())
        || range_is(bytes, start, end, "simgE".as_bytes())
        || range_is(bytes, start, end, "siml".as_bytes())
        || range_is(bytes, start, end, "simlE".as_bytes())
        || range_is(bytes, start, end, "simne".as_bytes())
        || range_is(bytes, start, end, "simplus".as_bytes())
        || range_is(bytes, start, end, "simrarr".as_bytes())
        || range_is(bytes, start, end, "slarr".as_bytes())
        || range_is(bytes, start, end, "smallsetminus".as_bytes())
        || range_is(bytes, start, end, "smashp".as_bytes())
        || range_is(bytes, start, end, "smeparsl".as_bytes())
        || range_is(bytes, start, end, "smid".as_bytes())
}

/// Whether the text is one of the names from `smile` to `squ`.
pub open spec fn named_73(text: Seq<u8>) -> bool {
    ||| text == "smile".spec_bytes()
    ||| text == "smt".spec_bytes()
    ||| text == "smte".spec_bytes()
    ||| text == "smtes".spec_bytes()
    ||| text == "softcy".spec_bytes()
    ||| text == "sol".spec_bytes()
    ||| text == "solb".spec_bytes()
    ||| text == "solbar".spec_bytes()
    ||| text == "sopf".spec_bytes()
    ||| text == "spades".spec_bytes()
    ||| text == "spadesuit".spec_bytes()
    ||| text == "spar".spec_bytes()
    ||| text == "sqcap".spec_bytes()
    ||| text == "sqcaps".spec_bytes()
    ||| text == "sqcup".spec_bytes()
    ||| text == "sqcups".spec_bytes()
    ||| text == "sqsub".spec_bytes()
    ||| text == "sqsube".spec_bytes()
    ||| text == "sqsubset".spec_bytes()
    ||| text == "sqsubseteq".spec_bytes()
    ||| text == "sqsup".spec_bytes()
    ||| text == "sqsupe".spec_bytes()
    ||| text == "sqsupset".spec_bytes()
    ||| text == "sqsupseteq".spec_bytes()
    ||| text == "squ".spec_bytes()
}

/// Whether the bytes `start..end` are one of the names from `smile` to
/// `squ`.
fn is_named_73(bytes: &[u8], start: usize, end: usize) -> (is: bool)
    requires
        start <= end <= bytes.len(),
    ensures
        is == named_73(bytes@.subrange(start as int, end as int)),
{
    range_is(bytes, start, end, "smile".as_bytes())
        || range_is(bytes, start, end, "smt".as_bytes())
        || range_is(bytes, start, end, "smte".as_bytes())
        || range_is(bytes, start, end, "smtes".as_bytes())
        || range_is(bytes, start, end, "softcy".as_bytes())
        || range_is(bytes, start, end, "sol".as_bytes())
        || range_is(bytes, start, end, "solb".as_bytes())
        || range_is(bytes, start, end, "solbar".as_bytes())
        || range_is(bytes, start, end, "sopf".as_bytes())
        || range_is(bytes, start, end, "spades".as_bytes())
        || range_is(bytes, start, end, "spadesuit".as_bytes())
        || range_is(bytes, start, end, "spar".as_bytes())
        || range_is(bytes, start, end, "sqcap".as_bytes())
        || range_is(bytes, start, end, "sqcaps".as_bytes())
        || range_is(bytes, start, end, "sqcup".as_bytes())
        || range_is(bytes, start, end, "sqcups".as_bytes())
        || range_is(bytes, start, end, "sqsub".as_bytes())
        || range_is(bytes, start, end, "sqsube".as_bytes())
        || range_is(bytes, start, end, "sqsubset".as_bytes())
        || range_is(bytes, start, end, "sqsubseteq".as_bytes())
        || range_is(bytes, start, end, "sqsup".as_bytes())
        || range_is(bytes, start, end, "sqsupe".as_bytes())
        || range_is(bytes, start, end, "sqsupset".as_bytes())
        || range_is(bytes, start, end, "sqsupseteq".as_bytes())
        || range_is(bytes, start, end, "squ".as_bytes())
}

/// Whether the text is one of the names from `square` to `subseteq`.
pub open spec fn named_74(text: Seq<u8>) -> bool {
    ||| text == "square".spec_bytes()
    ||| text == "squarf".spec_bytes()
    ||| text == "squf".spec_bytes()
    ||| text == "srarr".spec_bytes()
    ||| text == "sscr".spec_bytes()
    ||| text == "ssetmn".spec_bytes()
    ||| text == "ssmile".spec_bytes()
    ||| text == "sstarf".spec_bytes()
    ||| text == "star".spec_bytes()
    ||| text == "starf".spec_bytes()
    ||| text == "straightepsilon".spec_bytes()
    ||| text == "straightphi".spec_bytes()
    ||| text == "strns".spec_bytes()
    ||| text == "sub".spec_bytes()
    ||| text == "subE".spec_bytes()
    ||| text == "subdot".spec_bytes()
    ||| text == "sube".spec_bytes()
    ||| text == "subedot".spec_bytes()
    ||| text == "submult".spec_bytes()
    ||| text == "subnE".spec_bytes()
    ||| text == "subne".spec_bytes()
    ||| text == "subplus".spec_bytes()
    ||| text == "subrarr".spec_bytes()
    ||| text == "subset".spec_bytes()
    ||| text == "subseteq".spec_bytes()
}

/// Whether the bytes `start..end` are one of the names from `square` to
/// `subseteq`.
fn is_named_74(bytes: &[u8], start: usize, end: usize) -> (is: bool)
    requires
        start <= end <= bytes.len(),
    ensures
        is == named_74(bytes@.subrange(start as int, end as int)),
{
    range_is(bytes, start, end, "square".as_bytes())
        || range_is(bytes, start, end, "squarf".as_bytes())
        || range_is(bytes, start, end, "squf".as_bytes())
        || range_is(bytes, start, end, "srarr".as_bytes())
        || range_is(bytes, start, end, "sscr".as_bytes())
        || range_is(bytes, start, end, "ssetmn".as_bytes())
        || range_is(bytes, start, end, "ssmile".as_bytes())
        || range_is(bytes, start, end, "sstarf".as_bytes())
        || range_is(bytes, start, end, "star".as_bytes())
        || range_is(bytes, start, end, "starf".as_bytes())
        || range_is(bytes, start, end, "straightepsilon".as_bytes())
        || range_is(bytes, start, end, "straightphi".as_bytes())
        || range_is(bytes, start, end, "strns".as_bytes())
        || range_is(bytes, start, end, "sub".as_bytes())
        || range_is(bytes, start, end, "subE".as_bytes())
        || range_is(bytes, start, end, "subdot".as_bytes())
        || range_is(bytes, start, end, "sube".as_bytes())
        || range_is(bytes, start, end, "subedot".as_bytes())
        || range_is(bytes, start, end, "submult".as_bytes())
        || range_is(bytes, start, end, "subnE".as_bytes())
        || range_is(bytes, start, end, "subne".as_bytes())
        || range_is(bytes, start, end, "subplus".as_bytes())
        || range_is(bytes, start, end, "subrarr".as_bytes())
        || range_is(bytes, start, end, "subset".as_bytes())
        || range_is(bytes, start, end, "subseteq".as_bytes())
}

/// Whether the text is one of the names from `subseteqq` to `supedot`.
pub open spec fn named_75(text: Seq<u8>) -> bool {
    ||| text == "subseteqq".spec_bytes()
    ||| text == "subsetneq".spec_bytes()
    ||| text == "subsetneqq".spec_bytes()
    ||| text == "subsim".spec_bytes()
    ||| text == "subsub".spec_bytes()
    ||| text == "subsup".spec_bytes()
    ||| text == "succ".spec_bytes()
    ||| text == "succapprox".spec_bytes()
    ||| text == "succcurlyeq".spec_bytes()
    ||| text == "succeq".spec_bytes()
    ||| text == "succnapprox".spec_bytes()
    ||| text == "succneqq".spec_bytes()
    ||| text == "succnsim".spec_bytes()
    ||| text == "succsim".spec_bytes()
    ||| text == "sum".spec_bytes()
    ||| text == "sung".spec_bytes()
    ||| text == "sup".spec_bytes()
    ||| text == "sup1".spec_bytes()
    ||| text == "sup2".spec_bytes()
    ||| text == "sup3".spec_bytes()
    ||| text == "supE".spec_bytes()
    ||| text == "supdot".spec_bytes()
    ||| text == "supdsub".spec_bytes()
    ||| text == "supe".spec_bytes()
    ||| text == "supedot".spec_bytes()
}

/// Whether the bytes `start..end` are one of the names from `subseteqq` to
/// `supedot`.
fn is_named_75(bytes: &[u8], start: usize, end: usize) -> (is: bool)
    requires
        start <= end <= bytes.len(),
    ensures
        is == named_75(bytes@.subrange(start as int, end as int)),
{
    range_is(bytes, start, end, "subseteqq".as_bytes())
        || range_is(bytes, start, end, "subsetneq".as_bytes())
        || range_is(bytes, start, end, "subsetneqq".as_bytes())
        || range_is(bytes, start, end, "subsim".as_bytes())
        || range_is(bytes, start, end, "subsub".as_bytes())
        || range_is(bytes, start, end, "subsup".as_bytes())
        || range_is(bytes, start, end, "succ".as_bytes())
        || range_is(bytes, start, end, "succapprox".as_bytes())
        || range_is(bytes, start, end, "succcurlyeq".as_bytes())
        || range_is(bytes, start, end, "succeq".as_bytes())
        || range_is(bytes, start, end, "succnapprox".as_bytes())
        || range_is(bytes, start, end, "succneqq".as_bytes())
        || range_is(bytes, start, end, "succnsim".as_bytes())
        || range_is(bytes, start, end, "succsim".as_bytes())
        || range_is(bytes, start, end, "sum".as_bytes())
        || range_is(bytes, start, end, "sung".as_bytes())
        || range_is(bytes, start, end, "sup".as_bytes())
        || range_is(bytes, start, end, "sup1".as_bytes())
        || range_is(bytes, start, end, "sup2".as_bytes())
        || range_is(bytes, start, end, "sup3".as_bytes())
        || range_is(bytes, start, end, "supE".as_bytes())
        || range_is(bytes, start, end, "supdot".as_bytes())
        || range_is(bytes, start, end, "supdsub".as_bytes())
        || range_is(bytes, start, end, "supe".as_bytes())
        || range_is(bytes, start, end, "supedot".as_bytes())
}

/// Whether the text is one of the names from `suphsol` to `tcaron`.
pub open spec fn named_76(text: Seq<u8>) -> bool {
    ||| text == "suphsol".spec_bytes()
    ||| text == "suphsub".spec_bytes()
    ||| text == "suplarr".spec_bytes()
    ||| text == "supmult".spec_bytes()
    ||| text == "supnE".spec_bytes()
    ||| text == "supne".spec_bytes()
    ||| text == "supplus".spec_bytes()
    ||| text == "supset".spec_bytes()
    ||| text == "supseteq".spec_bytes()
    ||| text == "supseteqq".spec_bytes()
    ||| text == "supsetneq".spec_bytes()
    ||| text == "supsetneqq".spec_bytes()
    ||| text == "supsim".spec_bytes()
    ||| text == "supsub".spec_bytes()
    ||| text == "supsup".spec_bytes()
    ||| text == "swArr".spec_bytes()
    ||| text == "swarhk".spec_bytes()
    ||| text == "swarr".spec_bytes()
    ||| text == "swarrow".spec_bytes()
    ||| text == "swnwar".spec_bytes()
    ||| text == "szlig".spec_bytes()
    ||| text == "target".spec_bytes()
    ||| text == "tau".spec_bytes()
    ||| text == "tbrk".spec_bytes()
    ||| text == "tcaron".spec_bytes()
}

/// Whether the bytes `start..end` are one of the names from `suphsol` to
/// `tcaron`.
fn is_named_76(bytes: &[u8], start: usize, end: usize) -> (is: bool)
    requires
        start <= end <= bytes.len(),
    ensures
        is == named_76(bytes@.subrange(start as int, end as int)),
{
    range_is(bytes, start, end, "suphsol".as_bytes())
        || range_is(bytes, start, end, "suphsub".as_bytes())
        || range_is(bytes, start, end, "suplarr".as_bytes())
        || range_is(bytes, start, end, "supmult".as_bytes())
        || range_is(bytes, start, end, "supnE".as_bytes())
        || range_is(bytes, start, end, "supne".as_bytes())
        || range_is(bytes, start, end, "supplus".as_bytes())
        || range_is(bytes, start, end, "supset".as_bytes())
        || range_is(bytes, start, end, "supseteq".as_bytes())
        || range_is(bytes, start, end, "supseteqq".as_bytes())
        || range_is(bytes, start, end, "supsetneq".as_bytes())
        || range_is(bytes, start, end, "supsetneqq".as_bytes())
        || range_is(bytes, start, end, "supsim".as_bytes())
        || range_is(bytes, start, end, "supsub".as_bytes())
        || range_is(bytes, start, end, "supsup".as_bytes())
        || range_is(bytes, start, end, "swArr".as_bytes())
        || range_is(bytes, start, end, "swarhk".as_bytes())
        || range_is(bytes, start, end, "swarr".as_bytes())
        || range_is(bytes, start, end, "swarrow".as_bytes())
        || range_is(bytes, start, end, "swnwar".as_bytes())
        || range_is(bytes, start, end, "szlig".as_bytes())
        || range_is(bytes, start, end, "target".as_bytes())
        || range_is(bytes, start, end, "tau".as_bytes())
        || range_is(bytes, start, end, "tbrk".as_bytes())
        || range_is(bytes, start, end, "tcaron".as_bytes())
}

/// Whether the text is one of the names from `tcedil` to `topbot`.
pub open spec fn named_77(text: Seq<u8>) -> bool {
    ||| text == "tcedil".spec_bytes()
    ||| text == "tcy".spec_bytes()
    ||| text == "tdot".spec_bytes()
    ||| text == "telrec".spec_bytes()
    ||| text == "tfr".spec_bytes()
    ||| text == "there4".spec_bytes()
    ||| text == "therefore".spec_bytes()
    ||| text == "theta".spec_bytes()
    ||| text == "thetasym".spec_bytes()
    ||| text == "thetav".spec_bytes()
    ||| text == "thickapprox".spec_bytes()
    ||| text == "thicksim".spec_bytes()
    ||| text == "thinsp".spec_bytes()
    ||| text == "thkap".spec_bytes()
    ||| text == "thksim".spec_bytes()
    ||| text == "thorn".spec_bytes()
    ||| text == "tilde".spec_bytes()
    ||| text == "times".spec_bytes()
    ||| text == "timesb".spec_bytes()
    ||| text == "timesbar".spec_bytes()
    ||| text == "timesd".spec_bytes()
    ||| text == "tint".spec_bytes()
    ||| text == "toea".spec_bytes()
    ||| text == "top".spec_bytes()
    ||| text == "topbot".spec_bytes()
}

/// Whether the bytes `start..end` are one of the names from `tcedil` to
/// `topbot`.
fn is_named_77(bytes: &[u8], start: usize, end: usize) -> (is: bool)
    requires
        start <= end <= bytes.len(),
    ensures
        is == named_77(bytes@.subrange(start as int, end as int)),
{
    range_is(bytes, start, end, "tcedil".as_bytes())
        || range_is(bytes, start, end, "tcy".as_bytes())
        || range_is(bytes, start, end, "tdot".as_bytes())
        || range_is(bytes, start, end, "telrec".as_bytes())
        || range_is(bytes, start, end, "tfr".as_bytes())
        || range_is(bytes, start, end, "there4".as_bytes())
        || range_is(bytes, start, end, "therefore".as_bytes())
        || range_is(bytes, start, end, "theta".as_bytes())
        || range_is(bytes, start, end, "thetasym".as_bytes())
        || range_is(bytes, start, end, "thetav".as_bytes())
        || range_is(bytes, start, end, "thickapprox".as_bytes())
        || range_is(bytes, start, end, "thicksim".as_bytes())
        || range_is(bytes, start, end, "thinsp".as_bytes())
        || range_is(bytes, start, end, "thkap".as_bytes())
        || range_is(bytes, start, end, "thksim".as_bytes())
        || range_is(bytes, start, end, "thorn".as_bytes())
        || range_is(bytes, start, end, "tilde".as_bytes())
        || range_is(bytes, start, end, "times".as_bytes())
        || range_is(bytes, start, end, "timesb".as_bytes())
        || range_is(bytes, start, end, "timesbar".as_bytes())
        || range_is(bytes, start, end, "timesd".as_bytes())
        || range_is(bytes, start, end, "tint".as_bytes())
        || range_is(bytes, start, end, "toea".as_bytes())
        || range_is(bytes, start, end, "top".as_bytes())
        || range_is(bytes, start, end, "topbot".as_bytes())
}

/// Whether the text is one of the names from `topcir` to `twixt`.
pub open spec fn named_78(text: Seq<u8>) -> bool {
    ||| text == "topcir".spec_bytes()
    ||| text == "topf".spec_bytes()
    ||| text == "topfork".spec_bytes()
    ||| text == "tosa".spec_bytes()
    ||| text == "tprime".spec_bytes()
    ||| text == "trade".spec_bytes()
    ||| text == "triangle".spec_bytes()
    ||| text == "triangledown".spec_bytes()
    ||| text == "triangleleft".spec_bytes()
    ||| text == "trianglelefteq".spec_bytes()
    ||| text == "triangleq".spec_bytes()
    ||| text == "triangleright".spec_bytes()
    ||| text == "trianglerighteq".spec_bytes()
    ||| text == "tridot".spec_bytes()
    ||| text == "trie".spec_bytes()
    ||| text == "triminus".spec_bytes()
    ||| text == "triplus".spec_bytes()
    ||| text == "trisb".spec_bytes()
    ||| text == "tritime".spec_bytes()
    ||| text == "trpezium".spec_bytes()
    ||| text == "tscr".spec_bytes()
    ||| text == "tscy".spec_bytes()
    ||| text == "tshcy".spec_bytes()
    ||| text == "tstrok".spec_bytes()
    ||| text == "twixt".spec_bytes()
}

/// Whether the bytes `start..end` are one of the names from `topcir` to
/// `twixt`.
fn is_named_78(bytes: &[u8], start: usize, end: usize) -> (is: bool)
    requires
        start <= end <= bytes.len(),
    ensures
        is == named_78(bytes@.subrange(start as int, end as int)),
{
    range_is(bytes, start, end, "topcir".as_bytes())
        || range_is(bytes, start, end, "topf".as_bytes())
        || range_is(bytes, start, end, "topfork".as_bytes())
        || range_is(bytes, start, end, "tosa".as_bytes())
        || range_is(bytes, start, end, "tprime".as_bytes())
        || range_is(bytes, start, end, "trade".as_bytes())
        || range_is(bytes, start, end, "triangle".as_bytes())
        || range_is(bytes, start, end, "triangledown".as_bytes())
        || range_is(bytes, start, end, "triangleleft".as_bytes())
        || range_is(bytes, start, end, "trianglelefteq".as_bytes())
        || range_is(bytes, start, end, "triangleq".as_bytes())
        || range_is(bytes, start, end, "triangleright".as_bytes())
        || range_is(bytes, start, end, "trianglerighteq".as_bytes())
        || range_is(bytes, start, end, "tridot".as_bytes())
        || range_is(bytes, start, end, "trie".as_bytes())
        || range_is(bytes, start, end, "triminus".as_bytes())
        || range_is(bytes, start, end, "triplus".as_bytes())
        || range_is(bytes, start, end, "trisb".as_bytes())
        || range_is(bytes, start, end, "tritime".as_bytes())
        || range_is(bytes, start, end, "trpezium".as_bytes())
        || range_is(bytes, start, end, "tscr".as_bytes())
        || range_is(bytes, start, end, "tscy".as_bytes())
        || range_is(bytes, start, end, "tshcy".as_bytes())
        || range_is(bytes, start, end, "tstrok".as_bytes())
        || range_is(bytes, start, end, "twixt".as_bytes())
}

/// Whether the text is one of the names from `twoheadleftarrow` to `uml`.
pub open spec fn named_79(text: Seq<u8>) -> bool {
    ||| text == "twoheadleftarrow".spec_bytes()
    ||| text == "twoheadrightarrow".spec_bytes()
    ||| text == "uArr".spec_bytes()
    ||| text == "uHar".spec_bytes()
    ||| text == "uacute".spec_bytes()
    ||| text == "uarr".spec_bytes()
    ||| text == "ubrcy".spec_bytes()
    ||| text == "ubreve".spec_bytes()
    ||| text == "ucirc".spec_bytes()
    ||| text == "ucy".spec_bytes()
    ||| text == "udarr".spec_bytes()
    ||| text == "udblac".spec_bytes()
    ||| text == "udhar".spec_bytes()
    ||| text == "ufisht".spec_bytes()
    ||| text == "ufr".spec_bytes()
    ||| text == "ugrave".spec_bytes()
    ||| text == "uharl".spec_bytes()
    ||| text == "uharr".spec_bytes()
    ||| text == "uhblk".spec_bytes()
    ||| text == "ulcorn".spec_bytes()
    ||| text == "ulcorner".spec_bytes()
    ||| text == "ulcrop".spec_bytes()
    ||| text == "ultri".spec_bytes()
    ||| text == "umacr".spec_bytes()
    ||| text == "uml".spec_bytes()
}

/// Whether the bytes `start..end` are one of the names from `twoheadleftarrow` to
/// `uml`.
fn is_named_79(bytes: &[u8], start: usize, end: usize) -> (is: bool)
    requires
        start <= end <= bytes.len(),
    ensures
        is == named_79(bytes@.subrange(start as int, end as int)),
{
    range_is(bytes, start, end, "twoheadleftarrow".as_bytes())
        || range_is(bytes, start, end, "twoheadrightarrow".as_bytes())
        || range_is(bytes, start, end, "uArr".as_bytes())
        || range_is(bytes, start, end, "uHar".as_bytes())
        || range_is(bytes, start, end, "uacute".as_bytes())
        || range_is(bytes, start, end, "uarr".as_bytes())
        || range_is(bytes, start, end, "ubrcy".as_bytes())
        || range_is(bytes, start, end, "ubreve".as_bytes())
        || range_is(bytes, start, end, "ucirc".as_bytes())
        || range_is(bytes, start, end, "ucy".as_bytes())
        || range_is(bytes, start, end, "udarr".as_bytes())
        || range_is(bytes, start, end, "udblac".as_bytes())
        || range_is(bytes, start, end, "udhar".as_bytes())
        || range_is(bytes, start, end, "ufisht".as_bytes())
        || range_is(bytes, start, end, "ufr".as_bytes())
        || range_is(bytes, start, end, "ugrave".as_bytes())
        || range_is(bytes, start, end, "uharl".as_bytes())
        || range_is(bytes, start, end, "uharr".as_bytes())
        || range_is(bytes, start, end, "uhblk".as_bytes())
        || range_is(bytes, start, end, "ulcorn".as_bytes())
        || range_is(bytes, start, end, "ulcorner".as_bytes())
        || range_is(bytes, start, end, "ulcrop".as_bytes())
        || range_is(bytes, start, end, "ultri".as_bytes())
        || range_is(bytes, start, end, "umacr".as_bytes())
        || range_is(bytes, start, end, "uml".as_bytes())
}

/// Whether the text is one of the names from `uogon` to `vArr`.
pub open spec fn named_80(text: Seq<u8>) -> bool {
    ||| text == "uogon".spec_bytes()
    ||| text == "uopf".spec_bytes()
    ||| text == "uparrow".spec_bytes()
    ||| text == "updownarrow".spec_bytes()
    ||| text == "upharpoonleft".spec_bytes()
    ||| text == "upharpoonright".spec_bytes()
    ||| text == "uplus".spec_bytes()
    ||| text == "upsi".spec_bytes()
    ||| text == "upsih".spec_bytes()
    ||| text == "upsilon".spec_bytes()
    ||| text == "upuparrows".spec_bytes()
    ||| text == "urcorn".spec_bytes()
    ||| text == "urcorner".spec_bytes()
    ||| text == "urcrop".spec_bytes()
    ||| text == "uring".spec_bytes()
    ||| text == "urtri".spec_bytes()
    ||| text == "uscr".spec_bytes()
    ||| text == "utdot".spec_bytes()
    ||| text == "utilde".spec_bytes()
    ||| text == "utri".spec_bytes()
    ||| text == "utrif".spec_bytes()
    ||| text == "uuarr".spec_bytes()
    ||| text == "uuml".spec_bytes()
    ||| text == "uwangle".spec_bytes()
    ||| text == "vArr".spec_bytes()
}

/// Whether the bytes `start..end` are one of the names from `uogon` to
/// `vArr`.
fn is_named_80(bytes: &[u8], start: usize, end: usize) -> (is: bool)
    requires
        start <= end <= bytes.len(),
    ensures
        is == named_80(bytes@.subrange(start as int, end as int)),
{
    range_is(bytes, start, end, "uogon".as_bytes())
        || range_is(bytes, start, end, "uopf".as_bytes())
        || range_is(bytes, start, end, "uparrow".as_bytes())
        || range_is(bytes, start, end, "updownarrow".as_bytes())
        || range_is(bytes, start, end, "upharpoonleft".as_bytes())
        || range_is(bytes, start, end, "upharpoonright".as_bytes())
        || range_is(bytes, start, end, "uplus".as_bytes())
        || range_is(bytes, start, end, "upsi".as_bytes())
        || range_is(bytes, start, end, "upsih".as_bytes())
        || range_is(bytes, start, end, "upsilon".as_bytes())
        || range_is(bytes, start, end, "upuparrows".as_bytes())
        || range_is(bytes, start, end, "urcorn".as_bytes())
        || range_is(bytes, start, end, "urcorner".as_bytes())
        || range_is(bytes, start, end, "urcrop".as_bytes())
        || range_is(bytes, start, end, "uring".as_bytes())
        || range_is(bytes, start, end, "urtri".as_bytes())
        || range_is(bytes, start, end, "uscr".as_bytes())
        || range_is(bytes, start, end, "utdot".as_bytes())
        || range_is(bytes, start, end, "utilde".as_bytes())
        || range_is(bytes, start, end, "utri".as_bytes())
        || range_is(bytes, start, end, "utrif".as_bytes())
        || range_is(bytes, start, end, "uuarr".as_bytes())
        || range_is(bytes, start, end, "uuml".as_bytes())
        || range_is(bytes, start, end, "uwangle".as_bytes())
        || range_is(bytes, start, end, "vArr".as_bytes())
}

/// Whether the text is one of the names from `vBar` to `veeeq`.
pub open spec fn named_81(text: Seq<u8>) -> bool {
    ||| text == "vBar".spec_bytes()
    ||| text == "vBarv".spec_bytes()
    ||| text == "vDash".spec_bytes()
    ||| text == "vangrt".spec_bytes()
    ||| text == "varepsilon".spec_bytes()
    ||| text == "varkappa".spec_bytes()
    ||| text == "varnothing".spec_bytes()
    ||| text == "varphi".spec_bytes()
    ||| text == "varpi".spec_bytes()
    ||| text == "varpropto".spec_bytes()
    ||| text == "varr".spec_bytes()
    ||| text == "varrho".spec_bytes()
    ||| text == "varsigma".spec_bytes()
    ||| text == "varsubsetneq".spec_bytes()
    ||| text == "varsubsetneqq".spec_bytes()
    ||| text == "varsupsetneq".spec_bytes()
    ||| text == "varsupsetneqq".spec_bytes()
    ||| text == "vartheta".spec_bytes()
    ||| text == "vartriangleleft".spec_bytes()
    ||| text == "vartriangleright".spec_bytes()
    ||| text == "vcy".spec_bytes()
    ||| text == "vdash".spec_bytes()
    ||| text == "vee".spec_bytes()
    ||| text == "veebar".spec_bytes()
    ||| text == "veeeq".spec_bytes()
}

/// Whether the bytes `start..end` are one of the names from `vBar` to
/// `veeeq`.
fn is_named_81(bytes: &[u8], start: usize, end: usize) -> (is: bool)
    requires
        start <= end <= bytes.len(),
    ensures
        is == named_81(bytes@.subrange(start as int, end as int)),
{
    range_is(bytes, start, end, "vBar".as_bytes())
        || range_is(bytes, start, end, "vBarv".as_bytes())
        || range_is(bytes, start, end, "vDash".as_bytes())
        || range_is(bytes, start, end, "vangrt".as_bytes())
        || range_is(bytes, start, end, "varepsilon".as_bytes())
        || range_is(bytes, start, end, "varkappa".as_bytes())
        || range_is(bytes, start, end, "varnothing".as_bytes())
        || range_is(bytes, start, end, "varphi".as_bytes())
        || range_is(bytes, start, end, "varpi".as_bytes())
        || range_is(bytes, start, end, "varpropto".as_bytes())
        || range_is(bytes, start, end, "varr".as_bytes())
        || range_is(bytes, start, end, "varrho".as_bytes())
        || range_is(bytes, start, end, "varsigma".as_bytes())
        || range_is(bytes, start, end, "varsubsetneq".as_bytes())
        || range_is(bytes, start, end, "varsubsetneqq".as_bytes())
        || range_is(bytes, start, end, "varsupsetneq".as_bytes())
        || range_is(bytes, start, end, "varsupsetneqq".as_bytes())
        || range_is(bytes, start, end, "vartheta".as_bytes())
        || range_is(bytes, start, end, "vartriangleleft".as_bytes())
        || range_is(bytes, start, end, "vartriangleright".as_bytes())
        || range_is(bytes, start, end, "vcy".as_bytes())
        || range_is(bytes, start, end, "vdash".as_bytes())
        || range_is(bytes, start, end, "vee".as_bytes())
        || range_is(bytes, start, end, "veebar".as_bytes())
        || range_is(bytes, start, end, "veeeq".as_bytes())
}

/// Whether the text is one of the names from `vellip` to `wr`.
pub open spec fn named_82(text: Seq<u8>) -> bool {
    ||| text == "vellip".spec_bytes()
    ||| text == "verbar".spec_bytes()
    ||| text == "vert".spec_bytes()
    ||| text == "vfr".spec_bytes()
    ||| text == "vltri".spec_bytes()
    ||| text == "vnsub".spec_bytes()
    ||| text == "vnsup".spec_bytes()
    ||| text == "vopf".spec_bytes()
    ||| text == "vprop".spec_bytes()
    ||| text == "vrtri".spec_bytes()
    ||| text == "vscr".spec_bytes()
    ||| text == "vsubnE".spec_bytes()
    ||| text == "vsubne".spec_bytes()
    ||| text == "vsupnE".spec_bytes()
    ||| text == "vsupne".spec_bytes()
    ||| text == "vzigzag".spec_bytes()
    ||| text == "wcirc".spec_bytes()
    ||| text == "wedbar".spec_bytes()
    ||| text == "wedge".spec_bytes()
    ||| text == "wedgeq".spec_bytes()
    ||| text == "weierp".spec_bytes()
    ||| text == "wfr".spec_bytes()
    ||| text == "wopf".spec_bytes()
    ||| text == "wp".spec_bytes()
    ||| text == "wr".spec_bytes()
}

/// Whether the bytes `start..end` are one of the names from `vellip` to
/// `wr`.
fn is_named_82(bytes: &[u8], start: usize, end: usize) -> (is: bool)
    requires
        start <= end <= bytes.len(),
    ensures
        is == named_82(bytes@.subrange(start as int, end as int)),
{
    range_is(bytes, start, end, "vellip".as_bytes())
        || range_is(bytes, start, end, "verbar".as_bytes())
        || range_is(bytes, start, end, "vert".as_bytes())
        || range_is(bytes, start, end, "vfr".as_bytes())
        || range_is(bytes, start, end, "vltri".as_bytes())
        || range_is(bytes, start, end, "vnsub".as_bytes())
        || range_is(bytes, start, end, "vnsup".as_bytes())
        || range_is(bytes, start, end, "vopf".as_bytes())
        || range_is(bytes, start, end, "vprop".as_bytes())
        || range_is(bytes, start, end, "vrtri".as_bytes())
        || range_is(bytes, start, end, "vscr".as_bytes())
        || range_is(bytes, start, end, "vsubnE".as_bytes())
        || range_is(bytes, start, end, "vsubne".as_bytes())
        || range_is(bytes, start, end, "vsupnE".as_bytes())
        || range_is(bytes, start, end, "vsupne".as_bytes())
        || range_is(bytes, start, end, "vzigzag".as_bytes())
        || range_is(bytes, start, end, "wcirc".as_bytes())
        || range_is(bytes, start, end, "wedbar".as_bytes())
        || range_is(bytes, start, end, "wedge".as_bytes())
        || range_is(bytes, start, end, "wedgeq".as_bytes())
        || range_is(bytes, start, end, "weierp".as_bytes())
        || range_is(bytes, start, end, "wfr".as_bytes())
        || range_is(bytes, start, end, "wopf".as_bytes())
        || range_is(bytes, start, end, "wp".as_bytes())
        || range_is(bytes, start, end, "wr".as_bytes())
}

/// Whether the text is one of the names from `wreath` to `xvee`.
pub open spec fn named_83(text: Seq<u8>) -> bool {
    ||| text == "wreath".spec_bytes()
    ||| text == "wscr".spec_bytes()
    ||| text == "xcap".spec_bytes()
    ||| text == "xcirc".spec_bytes()
    ||| text == "xcup".spec_bytes()
    ||| text == "xdtri".spec_bytes()
    ||| text == "xfr".spec_bytes()
    ||| text == "xhArr".spec_bytes()
    ||| text == "xharr".spec_bytes()
    ||| text == "xi".spec_bytes()
    ||| text == "xlArr".spec_bytes()
    ||| text == "xlarr".spec_bytes()
    ||| text == "xmap".spec_bytes()
    ||| text == "xnis".spec_bytes()
    ||| text == "xodot".spec_bytes()
    ||| text == "xopf".spec_bytes()
    ||| text == "xoplus".spec_bytes()
    ||| text == "xotime".spec_bytes()
    ||| text == "xrArr".spec_bytes()
    ||| text == "xrarr".spec_bytes()
    ||| text == "xscr".spec_bytes()
    ||| text == "xsqcup".spec_bytes()
    ||| text == "xuplus".spec_bytes()
    ||| text == "xutri".spec_bytes()
    ||| text == "xvee".spec_bytes()
}

/// Whether the bytes `start..end` are one of the names from `wreath` to
/// `xvee`.
fn is_named_83(bytes: &[u8], start: usize, end: usize) -> (is: bool)
    requires
        start <= end <= bytes.len(),
    ensures
        is == named_83(bytes@.subrange(start as int, end as int)),
{
    range_is(bytes, start, end, "wreath".as_bytes())
        || range_is(bytes, start, end, "wscr".as_bytes())
        || range_is(bytes, start, end, "xcap".as_bytes())
        || range_is(bytes, start, end, "xcirc".as_bytes())
        || range_is(bytes, start, end, "xcup".as_bytes())
        || range_is(bytes, start, end, "xdtri".as_bytes())
        || range_is(bytes, start, end, "xfr".as_bytes())
        || range_is(bytes, start, end, "xhArr".as_bytes())
        || range_is(bytes, start, end, "xharr".as_bytes())
        || range_is(bytes, start, end, "xi".as_bytes())
        || range_is(bytes, start, end, "xlArr".as_bytes())
        || range_is(bytes, start, end, "xlarr".as_bytes())
        || range_is(bytes, start, end, "xmap".as_bytes())
        || range_is(bytes, start, end, "xnis".as_bytes())
        || range_is(bytes, start, end, "xodot".as_bytes())
        || range_is(bytes, start, end, "xopf".as_bytes())
        || range_is(bytes, start, end, "xoplus".as_bytes())
        || range_is(bytes, start, end, "xotime".as_bytes())
        || range_is(bytes, start, end, "xrArr".as_bytes())
        || range_is(bytes, start, end, "xrarr".as_bytes())
        || range_is(bytes, start, end, "xscr".as_bytes())
        || range_is(bytes, start, end, "xsqcup".as_bytes())
        || range_is(bytes, start, end, "xuplus".as_bytes())
        || range_is(bytes, start, end, "xutri".as_bytes())
        || range_is(bytes, start, end, "xvee".as_bytes())
}

/// Whether the text is one of the names from `xwedge` to `zwnj`.
pub open spec fn named_84(text: Seq<u8>) -> bool {
    ||| text == "xwedge".spec_bytes()
    ||| text == "yacute".spec_bytes()
    ||| text == "yacy".spec_bytes()
    ||| text == "ycirc".spec_bytes()
    ||| text == "ycy".spec_bytes()
    ||| text == "yen".spec_bytes()
    ||| text == "yfr".spec_bytes()
    ||| text == "yicy".spec_bytes()
    ||| text == "yopf".spec_bytes()
    ||| text == "yscr".spec_bytes()
    ||| text == "yucy".spec_bytes()
    ||| text == "yuml".spec_bytes()
    ||| text == "zacute".spec_bytes()
    ||| text == "zcaron".spec_bytes()
    ||| text == "zcy".spec_bytes()
    ||| text == "zdot".spec_bytes()
    ||| text == "zeetrf".spec_bytes()
    ||| text == "zeta".spec_bytes()
    ||| text == "zfr".spec_bytes()
    ||| text == "zhcy".spec_bytes()
    ||| text == "zigrarr".spec_bytes()
    ||| text == "zopf".spec_bytes()
    ||| text == "zscr".spec_bytes()
    ||| text == "zwj".spec_bytes()
    ||| text == "zwnj".spec_bytes()
}

/// Whether the bytes `start..end` are one of the names from `xwedge` to
/// `zwnj`.
fn is_named_84(bytes: &[u8], start: usize, end: usize) -> (is: bool)
    requires
        start <= end <= bytes.len(),
    ensures
        is == named_84(bytes@.subrange(start as int, end as int)),
{
    range_is(bytes, start, end, "xwedge".as_bytes())
        || range_is(bytes, start, end, "yacute".as_bytes())
        || range_is(bytes, start, end, "yacy".as_bytes())
        || range_is(bytes, start, end, "ycirc".as_bytes())
        || range_is(bytes, start, end, "ycy".as_bytes())
        || range_is(bytes, start, end, "yen".as_bytes())
        || range_is(bytes, start, end, "yfr".as_bytes())
        || range_is(bytes, start, end, "yicy".as_bytes())
        || range_is(bytes, start, end, "yopf".as_bytes())
        || range_is(bytes, start, end, "yscr".as_bytes())
        || range_is(bytes, start, end, "yucy".as_bytes())
        || range_is(bytes, start, end, "yuml".as_bytes())
        || range_is(bytes, start, end, "zacute".as_bytes())
        || range_is(bytes, start, end, "zcaron".as_bytes())
        || range_is(bytes, start, end, "zcy".as_bytes())
        || range_is(bytes, start, end, "zdot".as_bytes())
        || range_is(bytes, start, end, "zeetrf".as_bytes())
        || range_is(bytes, start, end, "zeta".as_bytes())
        || range_is(bytes, start, end, "zfr".as_bytes())
        || range_is(bytes, start, end, "zhcy".as_bytes())
        || range_is(bytes, start, end, "zigrarr".as_bytes())
        || range_is(bytes, start, end, "zopf".as_bytes())
        || range_is(bytes, start, end, "zscr".as_bytes())
        || range_is(bytes, start, end, "zwj".as_bytes())
        || range_is(bytes, start, end, "zwnj".as_bytes())
}

/// Whether the text is the name of a character reference of HTML.
#[verifier::opaque]
pub open spec fn reference_name(text: Seq<u8>) -> bool {
    ||| named_0(text)
    ||| named_1(text)
    ||| named_2(text)
    ||| named_3(text)
    ||| named_4(text)
    ||| named_5(text)
    ||| named_6(text)
    ||| named_7(text)
    ||| named_8(text)
    ||| named_9(text)
    ||| named_10(text)
    ||| named_11(text)
    ||| named_12(text)
    ||| named_13(text)
    ||| named_14(text)
    ||| named_15(text)
    ||| named_16(text)
    ||| named_17(text)
    ||| named_18(text)
    ||| named_19(text)
    ||| named_20(text)
    ||| named_21(text)
    ||| named_22(text)
    ||| named_23(text)
    ||| named_24(text)
    ||| named_25(text)
    ||| named_26(text)
    ||| named_27(text)
    ||| named_28(text)
    ||| named_29(text)
    ||| named_30(text)
    ||| named_31(text)
    ||| named_32(text)
    ||| named_33(text)
    ||| named_34(text)
    ||| named_35(text)
    ||| named_36(text)
    ||| named_37(text)
    ||| named_38(text)
    ||| named_39(text)
    ||| named_40(text)
    ||| named_41(text)
    ||| named_42(text)
    ||| named_43(text)
    ||| named_44(text)
    ||| named_45(text)
    ||| named_46(text)
    ||| named_47(text)
    ||| named_48(text)
    ||| named_49(text)
    ||| named_50(text)
    ||| named_51(text)
    ||| named_52(text)
    ||| named_53(text)
    ||| named_54(text)
    ||| named_55(text)
    ||| named_56(text)
    ||| named_57(text)
    ||| named_58(text)
    ||| named_59(text)
    ||| named_60(text)
    ||| named_61(text)
    ||| named_62(text)
    ||| named_63(text)
    ||| named_64(text)
    ||| named_65(text)
    ||| named_66(text)
    ||| named_67(text)
    ||| named_68(text)
    ||| named_69(text)
    ||| named_70(text)
    ||| named_71(text)
    ||| named_72(text)
    ||| named_73(text)
    ||| named_74(text)
    ||| named_75(text)
    ||| named_76(text)
    ||| named_77(text)
    ||| named_78(text)
    ||| named_79(text)
    ||| named_80(text)
    ||| named_81(text)
    ||| named_82(text)
    ||| named_83(text)
    ||| named_84(text)
}

/// Whether the bytes `start..end` are the name of a character reference of
/// HTML.
pub fn is_reference_name(bytes: &[u8], start: usize, end: usize) -> (is: bool)
    requires
        start <= end <= bytes.len(),
    ensures
        is == reference_name(bytes@.subrange(start as int, end as int)),
{
    proof {
        reveal(reference_name);
    }
    is_named_0(bytes, start, end)
        || is_named_1(bytes, start, end)
        || is_named_2(bytes, start, end)
        || is_named_3(bytes, start, end)
        || is_named_4(bytes, start, end)
        || is_named_5(bytes, start, end)
        || is_named_6(bytes, start, end)
        || is_named_7(bytes, start, end)
        || is_named_8(bytes, start, end)
        || is_named_9(bytes, start, end)
        || is_named_10(bytes, start, end)
        || is_named_11(bytes, start, end)
        || is_named_12(bytes, start, end)
        || is_named_13(bytes, start, end)
        || is_named_14(bytes, start, end)
        || is_named_15(bytes, start, end)
        || is_named_16(bytes, start, end)
        || is_named_17(bytes, start, end)
        || is_named_18(bytes, start, end)
        || is_named_19(bytes, start, end)
        || is_named_20(bytes, start, end)
        || is_named_21(bytes, start, end)
        || is_named_22(bytes, start, end)
        || is_named_23(bytes, start, end)
        || is_named_24(bytes, start, end)
        || is_named_25(bytes, start, end)
        || is_named_26(bytes, start, end)
        || is_named_27(bytes, start, end)
        || is_named_28(bytes, start, end)
        || is_named_29(bytes, start, end)
        || is_named_30(bytes, start, end)
        || is_named_31(bytes, start, end)
        || is_named_32(bytes, start, end)
        || is_named_33(bytes, start, end)
        || is_named_34(bytes, start, end)
        || is_named_35(bytes, start, end)
        || is_named_36(bytes, start, end)
        || is_named_37(bytes, start, end)
        || is_named_38(bytes, start, end)
        || is_named_39(bytes, start, end)
        || is_named_40(bytes, start, end)
        || is_named_41(bytes, start, end)
        || is_named_42(bytes, start, end)
        || is_named_43(bytes, start, end)
        || is_named_44(bytes, start, end)
        || is_named_45(bytes, start, end)
        || is_named_46(bytes, start, end)
        || is_named_47(bytes, start, end)
        || is_named_48(bytes, start, end)
        || is_named_49(bytes, start, end)
        || is_named_50(bytes, start, end)
        || is_named_51(bytes, start, end)
        || is_named_52(bytes, start, end)
        || is_named_53(bytes, start, end)
        || is_named_54(bytes, start, end)
        || is_named_55(bytes, start, end)
        || is_named_56(bytes, start, end)
        || is_named_57(bytes, start, end)
        || is_named_58(bytes, start, end)
        || is_named_59(bytes, start, end)
        || is_named_60(bytes, start, end)
        || is_named_61(bytes, start, end)
        || is_named_62(bytes, start, end)
        || is_named_63(bytes, start, end)
        || is_named_64(bytes, start, end)
        || is_named_65(bytes, start, end)
        || is_named_66(bytes, start, end)
        || is_named_67(bytes, start, end)
        || is_named_68(bytes, start, end)
        || is_named_69(bytes, start, end)
        || is_named_70(bytes, start, end)
        || is_named_71(bytes, start, end)
        || is_named_72(bytes, start, end)
        || is_named_73(bytes, start, end)
        || is_named_74(bytes, start, end)
        || is_named_75(bytes, start, end)
        || is_named_76(bytes, start, end)
        || is_named_77(bytes, start, end)
        || is_named_78(bytes, start, end)
        || is_named_79(bytes, start, end)
        || is_named_80(bytes, start, end)
        || is_named_81(bytes, start, end)
        || is_named_82(bytes, start, end)
        || is_named_83(bytes, start, end)
        || is_named_84(bytes, start, end)
}

} // verus!
