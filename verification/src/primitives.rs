//! The integer types that can index an interval map, and the primitive
//! types that can label its intervals.

use crate::interval_map::{Label, Point};
use vstd::prelude::*;

verus! {

impl Point for u8 {
    open spec fn to_int(self) -> int {
        self as int
    }

    open spec fn floor() -> int {
        0
    }

    open spec fn ceiling() -> int {
        u8::MAX as int
    }

    proof fn lemma_in_range(self) {
    }

    proof fn lemma_domain_nonempty() {
    }

    fn min_value() -> (r: Self) {
        0
    }

    fn max_value() -> (r: Self) {
        u8::MAX
    }

    fn less(self, other: Self) -> (r: bool) {
        self < other
    }

    fn successor(self) -> (r: Self) {
        self + 1
    }
}

impl Point for u16 {
    open spec fn to_int(self) -> int {
        self as int
    }

    open spec fn floor() -> int {
        0
    }

    open spec fn ceiling() -> int {
        u16::MAX as int
    }

    proof fn lemma_in_range(self) {
    }

    proof fn lemma_domain_nonempty() {
    }

    fn min_value() -> (r: Self) {
        0
    }

    fn max_value() -> (r: Self) {
        u16::MAX
    }

    fn less(self, other: Self) -> (r: bool) {
        self < other
    }

    fn successor(self) -> (r: Self) {
        self + 1
    }
}

impl Point for u32 {
    open spec fn to_int(self) -> int {
        self as int
    }

    open spec fn floor() -> int {
        0
    }

    open spec fn ceiling() -> int {
        u32::MAX as int
    }

    proof fn lemma_in_range(self) {
    }

    proof fn lemma_domain_nonempty() {
    }

    fn min_value() -> (r: Self) {
        0
    }

    fn max_value() -> (r: Self) {
        u32::MAX
    }

    fn less(self, other: Self) -> (r: bool) {
        self < other
    }

    fn successor(self) -> (r: Self) {
        self + 1
    }
}

impl Point for u64 {
    open spec fn to_int(self) -> int {
        self as int
    }

    open spec fn floor() -> int {
        0
    }

    open spec fn ceiling() -> int {
        u64::MAX as int
    }

    proof fn lemma_in_range(self) {
    }

    proof fn lemma_domain_nonempty() {
    }

    fn min_value() -> (r: Self) {
        0
    }

    fn max_value() -> (r: Self) {
        u64::MAX
    }

    fn less(self, other: Self) -> (r: bool) {
        self < other
    }

    fn successor(self) -> (r: Self) {
        self + 1
    }
}

impl Point for usize {
    open spec fn to_int(self) -> int {
        self as int
    }

    open spec fn floor() -> int {
        0
    }

    open spec fn ceiling() -> int {
        usize::MAX as int
    }

    proof fn lemma_in_range(self) {
    }

    proof fn lemma_domain_nonempty() {
    }

    fn min_value() -> (r: Self) {
        0
    }

    fn max_value() -> (r: Self) {
        usize::MAX
    }

    fn less(self, other: Self) -> (r: bool) {
        self < other
    }

    fn successor(self) -> (r: Self) {
        self + 1
    }
}

impl Label for bool {
    fn same(self, other: Self) -> (r: bool) {
        self == other
    }
}

impl Label for char {
    fn same(self, other: Self) -> (r: bool) {
        self == other
    }
}

impl Label for u8 {
    fn same(self, other: Self) -> (r: bool) {
        self == other
    }
}

impl Label for u16 {
    fn same(self, other: Self) -> (r: bool) {
        self == other
    }
}

impl Label for u32 {
    fn same(self, other: Self) -> (r: bool) {
        self == other
    }
}

impl Label for u64 {
    fn same(self, other: Self) -> (r: bool) {
        self == other
    }
}

impl Label for usize {
    fn same(self, other: Self) -> (r: bool) {
        self == other
    }
}

} // verus!
