//! Character sets for ASCII rendering, each sorted by visual brightness
//! (dark to bright), so that a pixel brightness in 0..=255 picks a character.
use vstd::prelude::*;
use crate::text::str_eq;

verus! {

/// Standard ASCII ramp — classic, good general-purpose rendering.
pub const ASCII_STANDARD: [char; 70] = [
    ' ', '.', '\'', '`', '^', '"', ',', ':', ';', 'I', 'l', '!', 'i', '>', '<', '~', '+', '_',
    '-', '?', ']', '[', '}', '{', '1', ')', '(', '|', '\\', '/', 't', 'f', 'j', 'r', 'x', 'n',
    'u', 'v', 'c', 'z', 'X', 'Y', 'U', 'J', 'C', 'L', 'Q', '0', 'O', 'Z', 'm', 'w', 'q', 'p',
    'd', 'b', 'k', 'h', 'a', 'o', '*', '#', 'M', 'W', '&', '8', '%', 'B', '@', '$',
];

/// Letters only — A-Za-z sorted by visual density.
pub const ASCII_LETTERS: [char; 41] = [
    ' ', 'l', 'i', 'I', 'c', 'r', 'v', 'x', 'n', 'u', 'z', 'j', 'f', 't', 'J', 'L', 'C', 'Y',
    'U', 'X', 'Z', 'o', 'a', 'h', 'k', 'b', 'd', 'p', 'q', 'w', 'm', 'O', 'Q', 'S', 'G', 'D',
    'B', 'W', 'M', '#', '@',
];

/// Dots/blocks only — minimal, clean look.
pub const ASCII_DOTS: [char; 10] = [
    ' ', '.', '·', ':', '∘', '○', '●', '◉', '■', '█'
];

/// Digits only.
pub const ASCII_DIGITS: [char; 14] = [
    ' ', '1', '7', ':', ';', '3', '5', '4', '2', '6', '9', '8', '0', '#'
];

/// Block elements — pixel-art style, great with color mode.
pub const ASCII_BLOCKS: [char; 5] = [
    ' ', '░', '▒', '▓', '█'
];

/// Edge direction characters for outline mode.
pub const EDGE_CHARS: [char; 4] = [
    '─', '╱', '│', '╲'
];

/// Korean syllables sorted by approximate visual density (light → heavy).
pub const HANGUL: [char; 155] = [
    '\u{3000}',
    '이', '기', '시', '리', '디', '니', '비', '지', '미', '피', '히',
    '으', '그', '스', '르', '드', '느', '브', '즈', '므', '프',
    '가', '나', '다', '라', '마', '바', '사', '아', '자', '차', '카', '타', '파', '하',
    '고', '노', '도', '로', '모', '보', '소', '오', '조', '초', '코', '토', '포', '호',
    '구', '누', '두', '루', '무', '부', '수', '우', '주', '추', '쿠', '투', '푸', '후',
    '인', '긴', '신', '린', '딘', '닌', '빈', '진', '민', '핀',
    '간', '난', '단', '란', '만', '반', '산', '안', '잔', '찬', '칸', '탄', '판', '한',
    '곤', '논', '돈', '론', '몬', '본', '손', '온', '존', '촌', '콘', '톤', '폰', '혼',
    '골', '놀', '돌', '롤', '몰', '볼', '솔', '올', '졸', '콜', '톨', '폴', '홀',
    '굴', '눌', '둘', '룰', '물', '불', '술', '울', '줄', '쿨', '풀', '훌',
    '곱', '놉', '돕', '롭', '몹', '봅', '솝', '옵', '좁',
    '관', '달', '람', '맘', '밤', '삼', '잠', '참', '함',
    '굵', '뭄', '흥', '를', '뭘', '쌀', '뿔', '흠', '뿡', '뭇',
];

/// Hiragana sorted by visual density (light → heavy).
pub const HIRAGANA: [char; 47] = [
    '\u{3000}',
    'い', 'こ', 'し', 'く', 'り', 'つ', 'て', 'に', 'の', 'へ',
    'う', 'え', 'か', 'き', 'け', 'さ', 'す', 'せ', 'そ', 'た',
    'ち', 'と', 'な', 'ひ', 'ふ', 'ほ', 'ま', 'み', 'む', 'め',
    'も', 'や', 'ゆ', 'よ', 'ら', 'る', 'れ', 'ろ', 'わ', 'を',
    'あ', 'お', 'ぬ', 'ね', 'は', 'ん',
];

/// Katakana sorted by visual density (light → heavy).
pub const KATAKANA: [char; 47] = [
    '\u{3000}',
    'ノ', 'ソ', 'ン', 'シ', 'ツ', 'ス', 'リ', 'ク', 'ケ', 'コ',
    'イ', 'エ', 'カ', 'キ', 'サ', 'セ', 'タ', 'チ', 'テ', 'ト',
    'ナ', 'ニ', 'ハ', 'ヒ', 'フ', 'ヘ', 'ホ', 'マ', 'ミ', 'ム',
    'メ', 'モ', 'ヤ', 'ユ', 'ヨ', 'ラ', 'ル', 'レ', 'ロ', 'ワ',
    'ア', 'ウ', 'オ', 'ヌ', 'ネ', 'ヲ',
];

/// Common Hanja (CJK characters used in Korean) sorted by stroke count / visual density.
pub const HANJA: [char; 106] = [
    '\u{3000}',
    '一', '二', '人', '十', '三', '大', '小', '上', '下', '山', '川', '口', '土',
    '日', '月', '火', '水', '木', '金', '王', '中', '天', '心', '文', '方', '正', '生',
    '白', '石', '目', '田', '世', '主', '半', '北', '古', '立',
    '年', '自', '名', '地', '光', '同', '回', '安', '色', '行', '西', '百', '有', '死',
    '先', '老', '全', '多', '交', '再', '成', '每', '身', '言', '里', '花', '長', '事',
    '京', '使', '命', '定', '明', '東', '物', '青', '空', '者', '門',
    '南', '海', '美', '食', '風', '書', '家', '時', '高', '馬', '鬼', '國', '動', '強',
    '黃', '黑', '道', '電', '愛', '漢', '語', '學',
    '親', '頭', '龍', '韓', '體', '驗', '觀',
];

/// Available charset names for user selection.
#[derive(Debug, Clone, Copy, PartialEq, Eq, Structural)]
pub enum CharsetName {
    Standard,
    Letters,
    Dots,
    Digits,
    Blocks,
    Hangul,
    Hiragana,
    Katakana,
    Hanja,
}

/// The characters of a charset, dark to bright.
pub open spec fn charset_chars(cs: CharsetName) -> Seq<char> {
    match cs {
        CharsetName::Standard => ASCII_STANDARD@,
        CharsetName::Letters => ASCII_LETTERS@,
        CharsetName::Dots => ASCII_DOTS@,
        CharsetName::Digits => ASCII_DIGITS@,
        CharsetName::Blocks => ASCII_BLOCKS@,
        CharsetName::Hangul => HANGUL@,
        CharsetName::Hiragana => HIRAGANA@,
        CharsetName::Katakana => KATAKANA@,
        CharsetName::Hanja => HANJA@,
    }
}

/// The display name of a charset.
pub open spec fn charset_label(cs: CharsetName) -> Seq<char> {
    match cs {
        CharsetName::Standard => "standard"@,
        CharsetName::Letters => "letters"@,
        CharsetName::Dots => "dots"@,
        CharsetName::Digits => "digits"@,
        CharsetName::Blocks => "blocks"@,
        CharsetName::Hangul => "한글"@,
        CharsetName::Hiragana => "ひらがな"@,
        CharsetName::Katakana => "カタカナ"@,
        CharsetName::Hanja => "漢字"@,
    }
}

/// Whether a charset is drawn with double-width (fullwidth) glyphs.
pub open spec fn charset_is_wide(cs: CharsetName) -> bool {
    cs is Hangul || cs is Hiragana || cs is Katakana || cs is Hanja
}

impl CharsetName {
    pub fn chars(self) -> (r: &'static [char])
        ensures
            r@ == charset_chars(self),
    {
        match self {
            CharsetName::Standard => ASCII_STANDARD.as_slice(),
            CharsetName::Letters => ASCII_LETTERS.as_slice(),
            CharsetName::Dots => ASCII_DOTS.as_slice(),
            CharsetName::Digits => ASCII_DIGITS.as_slice(),
            CharsetName::Blocks => ASCII_BLOCKS.as_slice(),
            CharsetName::Hangul => HANGUL.as_slice(),
            CharsetName::Hiragana => HIRAGANA.as_slice(),
            CharsetName::Katakana => KATAKANA.as_slice(),
            CharsetName::Hanja => HANJA.as_slice(),
        }
    }

    pub fn label(self) -> (r: &'static str)
        ensures
            r@ == charset_label(self),
    {
        match self {
            CharsetName::Standard => "standard",
            CharsetName::Letters => "letters",
            CharsetName::Dots => "dots",
            CharsetName::Digits => "digits",
            CharsetName::Blocks => "blocks",
            CharsetName::Hangul => "한글",
            CharsetName::Hiragana => "ひらがな",
            CharsetName::Katakana => "カタカナ",
            CharsetName::Hanja => "漢字",
        }
    }

    /// Whether this charset uses double-width (fullwidth) characters.
    pub fn is_wide(self) -> (r: bool)
        ensures
            r == charset_is_wide(self),
    {
        match self {
            CharsetName::Hangul | CharsetName::Hiragana | CharsetName::Katakana | CharsetName::Hanja => true,
            _ => false,
        }
    }
}

/// Every charset has at least two characters and starts with a blank: plain
/// space for the narrow charsets, ideographic (fullwidth) space for the wide ones.
pub proof fn lemma_charset_shape(cs: CharsetName)
    ensures
        charset_chars(cs).len() >= 2,
        charset_chars(cs)[0] == (if charset_is_wide(cs) { '\u{3000}' } else { ' ' }),
{
}

/// The charset a command-line style name selects: its English name in
/// lower case ("standard", ..., "hangul", "hiragana", "katakana", "hanja").
pub open spec fn charset_named(s: Seq<char>) -> Option<CharsetName> {
    if s == "standard"@ {
        Some(CharsetName::Standard)
    } else if s == "letters"@ {
        Some(CharsetName::Letters)
    } else if s == "dots"@ {
        Some(CharsetName::Dots)
    } else if s == "digits"@ {
        Some(CharsetName::Digits)
    } else if s == "blocks"@ {
        Some(CharsetName::Blocks)
    } else if s == "hangul"@ {
        Some(CharsetName::Hangul)
    } else if s == "hiragana"@ {
        Some(CharsetName::Hiragana)
    } else if s == "katakana"@ {
        Some(CharsetName::Katakana)
    } else if s == "hanja"@ {
        Some(CharsetName::Hanja)
    } else {
        None
    }
}

/// The charset named on the command line; `None` for an unknown name.
pub fn charset_from_name(s: &str) -> (r: Option<CharsetName>)
    ensures
        r == charset_named(s@),
{
    if str_eq(s, "standard") {
        Some(CharsetName::Standard)
    } else if str_eq(s, "letters") {
        Some(CharsetName::Letters)
    } else if str_eq(s, "dots") {
        Some(CharsetName::Dots)
    } else if str_eq(s, "digits") {
        Some(CharsetName::Digits)
    } else if str_eq(s, "blocks") {
        Some(CharsetName::Blocks)
    } else if str_eq(s, "hangul") {
        Some(CharsetName::Hangul)
    } else if str_eq(s, "hiragana") {
        Some(CharsetName::Hiragana)
    } else if str_eq(s, "katakana") {
        Some(CharsetName::Katakana)
    } else if str_eq(s, "hanja") {
        Some(CharsetName::Hanja)
    } else {
        None
    }
}

/// The style name that selects a charset on the command line: the label for
/// the narrow charsets, the English name for the wide ones.
pub open spec fn charset_english_name(cs: CharsetName) -> Seq<char> {
    match cs {
        CharsetName::Hangul => "hangul"@,
        CharsetName::Hiragana => "hiragana"@,
        CharsetName::Katakana => "katakana"@,
        CharsetName::Hanja => "hanja"@,
        _ => charset_label(cs),
    }
}

/// Each style name selects the charset it names: a narrow charset's label
/// selects that charset, a wide charset's English name selects that charset,
/// and a name that selects a charset is that charset's name (no two names
/// select the same charset).
pub proof fn lemma_charset_names(cs: CharsetName, s: Seq<char>)
    ensures
        !charset_is_wide(cs) ==> charset_named(charset_label(cs)) == Some(cs),
        charset_named(charset_english_name(cs)) == Some(cs),
        charset_named(s) == Some(cs) ==> s == charset_english_name(cs),
{
    reveal_strlit("standard");
    reveal_strlit("letters");
    reveal_strlit("dots");
    reveal_strlit("digits");
    reveal_strlit("blocks");
    reveal_strlit("hangul");
    reveal_strlit("hiragana");
    reveal_strlit("katakana");
    reveal_strlit("hanja");
    assert("standard"@.len() == 8 && "standard"@[0] == 's');
    assert("letters"@.len() == 7 && "letters"@[0] == 'l');
    assert("dots"@.len() == 4 && "dots"@[0] == 'd');
    assert("digits"@.len() == 6 && "digits"@[0] == 'd');
    assert("blocks"@.len() == 6 && "blocks"@[0] == 'b');
    assert("hangul"@.len() == 6 && "hangul"@[0] == 'h');
    assert("hiragana"@.len() == 8 && "hiragana"@[0] == 'h');
    assert("katakana"@.len() == 8 && "katakana"@[0] == 'k');
    assert("hanja"@.len() == 5 && "hanja"@[0] == 'h');
}

} // verus!
