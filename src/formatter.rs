use vstd::prelude::*;

verus! {

/// Controls the whitespace between JSON elements. It changes the output's looks and size, never
/// its meaning. A formatter may keep state (the nesting depth); `nested` and `unnested` say how
/// opening and closing a container changes it.
pub trait JsonFormatter: Sized {
    spec fn after_key_text(&self) -> Seq<u8>;

    spec fn after_start_nested_text(&self) -> Seq<u8>;

    spec fn nested(&self) -> Self;

    spec fn after_element_text(&self) -> Seq<u8>;

    spec fn before_end_nested_text(&self, is_empty: bool) -> Seq<u8>;

    spec fn unnested(&self) -> Self;

    spec fn indent_text(&self) -> Seq<u8>;

    /// Whitespace after the `:` of a key.
    fn after_key(&self) -> (r: Vec<u8>)
        ensures
            r@ == self.after_key_text(),
    ;

    /// Whitespace after the start of an object or array; adds a level of nesting.
    fn after_start_nested(&mut self) -> (r: Vec<u8>)
        ensures
            r@ == old(self).after_start_nested_text(),
            *final(self) == old(self).nested(),
    ;

    /// Whitespace after an element's comma.
    fn after_element(&self) -> (r: Vec<u8>)
        ensures
            r@ == self.after_element_text(),
    ;

    /// Whitespace before the end of an object or array; removes a level of nesting.
    fn before_end_nested(&mut self, is_empty: bool) -> (r: Vec<u8>)
        ensures
            r@ == old(self).before_end_nested_text(is_empty),
            *final(self) == old(self).unnested(),
    ;

    /// Indentation before an element.
    fn indent(&self) -> (r: Vec<u8>)
        ensures
            r@ == self.indent_text(),
    ;
}

/// Writes no whitespace at all, minimizing output size.
#[derive(Debug, Clone, Copy, PartialEq, Eq, Structural)]
pub struct CompactFormatter;

impl JsonFormatter for CompactFormatter {
    open spec fn after_key_text(&self) -> Seq<u8> {
        Seq::empty()
    }

    open spec fn after_start_nested_text(&self) -> Seq<u8> {
        Seq::empty()
    }

    open spec fn nested(&self) -> Self {
        *self
    }

    open spec fn after_element_text(&self) -> Seq<u8> {
        Seq::empty()
    }

    open spec fn before_end_nested_text(&self, is_empty: bool) -> Seq<u8> {
        Seq::empty()
    }

    open spec fn unnested(&self) -> Self {
        *self
    }

    open spec fn indent_text(&self) -> Seq<u8> {
        Seq::empty()
    }

    fn after_key(&self) -> (r: Vec<u8>) {
        Vec::new()
    }

    fn after_start_nested(&mut self) -> (r: Vec<u8>) {
        Vec::new()
    }

    fn after_element(&self) -> (r: Vec<u8>) {
        Vec::new()
    }

    fn before_end_nested(&mut self, is_empty: bool) -> (r: Vec<u8>) {
        Vec::new()
    }

    fn indent(&self) -> (r: Vec<u8>) {
        Vec::new()
    }
}

/// A newline followed by two spaces per level of nesting.
pub open spec fn indent_bytes(level: nat) -> Seq<u8> {
    seq![0x0au8] + Seq::new(2 * level, |i: int| 0x20u8)
}

/// Writes newlines and two spaces of indentation per level, and a space after each key.
#[derive(Debug, Clone, Copy, PartialEq, Eq, Structural)]
pub struct PrettyFormatter {
    /// The current depth of nesting.
    pub indent_level: usize,
}

impl PrettyFormatter {
    pub open spec fn level(&self) -> nat {
        self.indent_level as nat
    }

    pub fn new() -> (r: PrettyFormatter)
        ensures
            r.level() == 0,
    {
        PrettyFormatter { indent_level: 0 }
    }
}

impl JsonFormatter for PrettyFormatter {
    open spec fn after_key_text(&self) -> Seq<u8> {
        seq![0x20u8]
    }

    open spec fn after_start_nested_text(&self) -> Seq<u8> {
        Seq::empty()
    }

    open spec fn nested(&self) -> Self {
        if self.indent_level < usize::MAX {
            PrettyFormatter { indent_level: (self.indent_level + 1) as usize }
        } else {
            *self
        }
    }

    open spec fn after_element_text(&self) -> Seq<u8> {
        Seq::empty()
    }

    open spec fn before_end_nested_text(&self, is_empty: bool) -> Seq<u8> {
        if is_empty {
            Seq::empty()
        } else {
            self.unnested().indent_text()
        }
    }

    open spec fn unnested(&self) -> Self {
        if self.indent_level > 0 {
            PrettyFormatter { indent_level: (self.indent_level - 1) as usize }
        } else {
            *self
        }
    }

    open spec fn indent_text(&self) -> Seq<u8> {
        indent_bytes(self.level())
    }

    fn after_key(&self) -> (r: Vec<u8>) {
        let mut r = Vec::new();
        r.push(0x20u8);
        assert(r@ =~= seq![0x20u8]);
        r
    }

    fn after_start_nested(&mut self) -> (r: Vec<u8>) {
        if self.indent_level < usize::MAX {
            self.indent_level = self.indent_level + 1;
        }
        Vec::new()
    }

    fn after_element(&self) -> (r: Vec<u8>) {
        Vec::new()
    }

    fn before_end_nested(&mut self, is_empty: bool) -> (r: Vec<u8>) {
        if self.indent_level > 0 {
            self.indent_level = self.indent_level - 1;
        }
        if is_empty {
            Vec::new()
        } else {
            self.indent()
        }
    }

    fn indent(&self) -> (r: Vec<u8>) {
        let mut r = Vec::new();
        r.push(0x0au8);
        let mut i: usize = 0;
        while i < self.indent_level
            invariant
                i <= self.indent_level,
                r@ =~= seq![0x0au8] + Seq::new(2 * (i as nat), |k: int| 0x20u8),
            decreases self.indent_level - i,
        {
            r.push(0x20u8);
            r.push(0x20u8);
            i = i + 1;
        }
        r
    }
}

/// How a floating point number is written.
#[derive(Debug, Clone, Copy, PartialEq, Eq, Structural)]
pub enum FloatNotation {
    /// The `null` literal, for values that are not finite.
    Null,
    Decimal,
    Exponential,
}

/// The default policy for floating point numbers: `null` for infinities and NaN, decimal
/// notation for magnitudes from 1e-3 up to (not including) 1e6, exponential notation otherwise.
/// The library holds no floats: the caller states the two facts about the value.
#[derive(Debug, Clone, Copy, PartialEq, Eq, Structural)]
pub struct DefaultFloatFormat;

impl DefaultFloatFormat {
    /// The notation for a value that is finite or not, and whose magnitude lies in
    /// [1e-3, 1e6) or not.
    pub fn notation(is_finite: bool, in_decimal_range: bool) -> (r: FloatNotation)
        ensures
            r == if !is_finite {
                FloatNotation::Null
            } else if in_decimal_range {
                FloatNotation::Decimal
            } else {
                FloatNotation::Exponential
            },
    {
        if !is_finite {
            FloatNotation::Null
        } else if in_decimal_range {
            FloatNotation::Decimal
        } else {
            FloatNotation::Exponential
        }
    }
}

} // verus!
