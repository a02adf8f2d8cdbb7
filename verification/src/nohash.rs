//! A hasher for integer keys whose hash is the key itself.
use std::marker::PhantomData;
use vstd::prelude::*;

verus! {

/// Key types that an integer write hashes completely.
pub trait NoHash: std::hash::Hash {}

impl NoHash for u8 {}

impl NoHash for u16 {}

impl NoHash for u32 {}

impl NoHash for u64 {}

impl NoHash for usize {}

impl NoHash for i8 {}

impl NoHash for i16 {}

impl NoHash for i32 {}

impl NoHash for i64 {}

impl NoHash for isize {}

/// A hasher whose state is the last integer written to it, widened to `u64` (signed values
/// are sign-extended, as `as u64` does).
#[derive(Debug, Default)]
pub struct NoHashHasher<T>(u64, PhantomData<T>);

impl<T> Clone for NoHashHasher<T> {
    fn clone(&self) -> (r: Self)
        ensures
            r == *self,
    {
        NoHashHasher(self.0, PhantomData)
    }
}

impl<T> Copy for NoHashHasher<T> {
}

impl<T: NoHash> NoHashHasher<T> {
    /// The current state, which [`Self::finish`] returns.
    pub closed spec fn state(&self) -> u64 {
        self.0
    }

    /// A hasher in state `0`.
    pub fn new() -> (h: Self)
        ensures
            h.state() == 0,
    {
        NoHashHasher(0, PhantomData)
    }

    pub fn write_u8(&mut self, n: u8)
        ensures
            final(self).state() == n as u64,
    {
        self.0 = n as u64;
    }

    pub fn write_u16(&mut self, n: u16)
        ensures
            final(self).state() == n as u64,
    {
        self.0 = n as u64;
    }

    pub fn write_u32(&mut self, n: u32)
        ensures
            final(self).state() == n as u64,
    {
        self.0 = n as u64;
    }

    pub fn write_u64(&mut self, n: u64)
        ensures
            final(self).state() == n,
    {
        self.0 = n;
    }

    pub fn write_usize(&mut self, n: usize)
        ensures
            final(self).state() == n as u64,
    {
        self.0 = n as u64;
    }

    pub fn write_i8(&mut self, n: i8)
        ensures
            final(self).state() == n as u64,
    {
        self.0 = n as u64;
    }

    pub fn write_i16(&mut self, n: i16)
        ensures
            final(self).state() == n as u64,
    {
        self.0 = n as u64;
    }

    pub fn write_i32(&mut self, n: i32)
        ensures
            final(self).state() == n as u64,
    {
        self.0 = n as u64;
    }

    pub fn write_i64(&mut self, n: i64)
        ensures
            final(self).state() == n as u64,
    {
        self.0 = n as u64;
    }

    pub fn write_isize(&mut self, n: isize)
        ensures
            final(self).state() == n as u64,
    {
        self.0 = n as u64;
    }

    /// The hash: the last integer written.
    pub fn finish(&self) -> (r: u64)
        ensures
            r == self.state(),
    {
        self.0
    }
}

impl<T: NoHash> std::hash::Hasher for NoHashHasher<T> {
    /// Raw bytes carry no integer and leave the state as it is; the key types of this hasher
    /// only ever write integers.
    fn write(&mut self, _bytes: &[u8]) {
    }

    fn write_u8(&mut self, n: u8) {
        NoHashHasher::<T>::write_u8(self, n)
    }

    fn write_u16(&mut self, n: u16) {
        NoHashHasher::<T>::write_u16(self, n)
    }

    fn write_u32(&mut self, n: u32) {
        NoHashHasher::<T>::write_u32(self, n)
    }

    fn write_u64(&mut self, n: u64) {
        NoHashHasher::<T>::write_u64(self, n)
    }

    fn write_usize(&mut self, n: usize) {
        NoHashHasher::<T>::write_usize(self, n)
    }

    fn write_i8(&mut self, n: i8) {
        NoHashHasher::<T>::write_i8(self, n)
    }

    fn write_i16(&mut self, n: i16) {
        NoHashHasher::<T>::write_i16(self, n)
    }

    fn write_i32(&mut self, n: i32) {
        NoHashHasher::<T>::write_i32(self, n)
    }

    fn write_i64(&mut self, n: i64) {
        NoHashHasher::<T>::write_i64(self, n)
    }

    fn write_isize(&mut self, n: isize) {
        NoHashHasher::<T>::write_isize(self, n)
    }

    fn finish(&self) -> u64 {
        NoHashHasher::<T>::finish(self)
    }
}

/// Builds hashers that pass integer keys through unchanged.
pub type BuildNoHashHasher<T> = std::hash::BuildHasherDefault<NoHashHasher<T>>;

/// A hash map keyed by integers that are their own hashes.
pub type NoHashMap<K, V> = std::collections::HashMap<K, V, BuildNoHashHasher<K>>;

/// A hash set of integers that are their own hashes.
pub type NoHashSet<T> = std::collections::HashSet<T, BuildNoHashHasher<T>>;

} // verus!
