// Picks a random wallpaper from the wallhaven catalog: the first candidate of
// a page of search results whose tags contain none of the excluded fragments.

pub mod matcher;
pub mod text;
pub mod wallhaven;
