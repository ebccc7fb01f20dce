//! What the tools say.

use vstd::prelude::*;
use vstd::string::*;

use crate::path::RawPath;
use crate::text::{append_quoted, display, quoted, shown};

verus! {

/// A path between quotes.
pub fn quote(p: &RawPath) -> (r: String)
    ensures
        r@ == quoted(p@),
{
    let mut s: String = String::new();
    append_quoted(&mut s, p);
    assert(s@ =~= quoted(p@));
    s
}

// ---------------------------------------------------------------------------
// Planning
// ---------------------------------------------------------------------------

/// A source cannot be looked at, for the reason `cause`.
pub open spec fn cannot_access_because(p: Seq<u8>, cause: Seq<char>) -> Seq<char> {
    cannot_access(p) + ": "@ + cause
}

/// A source cannot be looked at.
pub open spec fn cannot_access(p: Seq<u8>) -> Seq<char> {
    "impossible d'accéder à "@ + quoted(p)
}

/// A source cannot be looked at.
pub fn say_cannot_access(p: &RawPath) -> (r: String)
    ensures
        r@ == cannot_access(p@),
{
    let mut s: String = "impossible d'accéder à ".to_owned();
    append_quoted(&mut s, p);
    s
}

/// A source cannot be looked at, for the reason `cause`.
pub fn say_cannot_access_because(p: &RawPath, cause: &str) -> (r: String)
    ensures
        r@ == cannot_access_because(p@, cause@),
{
    let mut s: String = say_cannot_access(p);
    s.append(": ");
    s.append(cause);
    s
}

/// A directory is copied only when asked.
pub open spec fn needs_recursive(p: Seq<u8>) -> Seq<char> {
    "-r non spécifié ; omission du répertoire "@ + quoted(p)
}

/// A directory is copied only when asked.
pub fn say_needs_recursive(p: &RawPath) -> (r: String)
    ensures
        r@ == needs_recursive(p@),
{
    let mut s: String = "-r non spécifié ; omission du répertoire ".to_owned();
    append_quoted(&mut s, p);
    s
}

/// The source is the destination.
pub open spec fn identical(p: Seq<u8>) -> Seq<char> {
    "la source et la destination sont identiques : "@ + quoted(p)
}

/// The source is the destination.
pub fn say_identical(p: &RawPath) -> (r: String)
    ensures
        r@ == identical(p@),
{
    let mut s: String = "la source et la destination sont identiques : ".to_owned();
    append_quoted(&mut s, p);
    s
}

/// The destination lies inside the source.
pub open spec fn inside_itself(p: Seq<u8>, d: Seq<u8>) -> Seq<char> {
    "impossible de copier "@ + quoted(p) + " dans un de ses sous-répertoires ("@ + quoted(d) + ")"@
}

/// The destination lies inside the source.
pub fn say_inside_itself(p: &RawPath, d: &RawPath) -> (r: String)
    ensures
        r@ == inside_itself(p@, d@),
{
    let mut s: String = "impossible de copier ".to_owned();
    append_quoted(&mut s, p);
    s.append(" dans un de ses sous-répertoires (");
    append_quoted(&mut s, d);
    s.append(")");
    s
}

/// A socket or a device is not copied.
pub open spec fn special_file(p: Seq<u8>) -> Seq<char> {
    quoted(p) + " est un fichier spécial, copie non supportée"@
}

/// A socket or a device is not copied.
pub fn say_special_file(p: &RawPath) -> (r: String)
    ensures
        r@ == special_file(p@),
{
    let mut s: String = quote(p);
    s.append(" est un fichier spécial, copie non supportée");
    s
}

/// Both names stand for one file.
pub open spec fn same_file(p: Seq<u8>, d: Seq<u8>) -> Seq<char> {
    quoted(p) + " et "@ + quoted(d) + " sont le même fichier"@
}

/// Both names stand for one file.
pub fn say_same_file(p: &RawPath, d: &RawPath) -> (r: String)
    ensures
        r@ == same_file(p@, d@),
{
    let mut s: String = quote(p);
    s.append(" et ");
    append_quoted(&mut s, d);
    s.append(" sont le même fichier");
    s
}

/// The destination is a link to nothing.
pub open spec fn dangling_link(d: Seq<u8>) -> Seq<char> {
    "pas d'écriture à travers le lien symbolique rompu "@ + quoted(d)
}

/// The destination is a link to nothing.
pub fn say_dangling_link(d: &RawPath) -> (r: String)
    ensures
        r@ == dangling_link(d@),
{
    let mut s: String = "pas d'écriture à travers le lien symbolique rompu ".to_owned();
    append_quoted(&mut s, d);
    s
}

/// The walk through a tree met an error.
pub open spec fn walk_error(cause: Seq<char>) -> Seq<char> {
    "erreur lors du parcours : "@ + cause
}

/// The walk through a tree met an error.
pub fn say_walk_error(cause: &str) -> (r: String)
    ensures
        r@ == walk_error(cause@),
{
    let mut s: String = "erreur lors du parcours : ".to_owned();
    s.append(cause);
    s
}

/// Something went wrong with `p`.
pub open spec fn trouble_with(p: Seq<u8>, cause: Seq<char>) -> Seq<char> {
    shown(p) + " : "@ + cause
}

/// Something went wrong with `p`.
pub fn say_trouble_with(p: &RawPath, cause: &str) -> (r: String)
    ensures
        r@ == trouble_with(p@, cause@),
{
    let mut s: String = display(p);
    s.append(" : ");
    s.append(cause);
    s
}

// ---------------------------------------------------------------------------
// Copying
// ---------------------------------------------------------------------------

/// An existing destination is kept, and that is an error.
pub open spec fn not_replaced(d: Seq<u8>) -> Seq<char> {
    "non remplacé : "@ + quoted(d)
}

/// An existing destination is kept, and that is an error.
pub fn say_not_replaced(d: &RawPath) -> (r: String)
    ensures
        r@ == not_replaced(d@),
{
    let mut s: String = "non remplacé : ".to_owned();
    append_quoted(&mut s, d);
    s
}

/// A file cannot replace a directory.
pub open spec fn file_over_directory(d: Seq<u8>) -> Seq<char> {
    "impossible d'écraser le répertoire "@ + quoted(d) + " par un fichier"@
}

/// A file cannot replace a directory.
pub fn say_file_over_directory(d: &RawPath) -> (r: String)
    ensures
        r@ == file_over_directory(d@),
{
    let mut s: String = "impossible d'écraser le répertoire ".to_owned();
    append_quoted(&mut s, d);
    s.append(" par un fichier");
    s
}

/// A hard link cannot replace a directory.
pub open spec fn hard_link_over_directory(d: Seq<u8>) -> Seq<char> {
    "impossible d'écraser le répertoire "@ + quoted(d) + " par un lien dur"@
}

/// A hard link cannot replace a directory.
pub fn say_hard_link_over_directory(d: &RawPath) -> (r: String)
    ensures
        r@ == hard_link_over_directory(d@),
{
    let mut s: String = "impossible d'écraser le répertoire ".to_owned();
    append_quoted(&mut s, d);
    s.append(" par un lien dur");
    s
}

/// A symbolic link cannot replace a directory.
pub open spec fn link_over_directory(d: Seq<u8>) -> Seq<char> {
    "impossible d'écraser le répertoire "@ + quoted(d) + " par un lien symbolique"@
}

/// A symbolic link cannot replace a directory.
pub fn say_link_over_directory(d: &RawPath) -> (r: String)
    ensures
        r@ == link_over_directory(d@),
{
    let mut s: String = "impossible d'écraser le répertoire ".to_owned();
    append_quoted(&mut s, d);
    s.append(" par un lien symbolique");
    s
}

/// A directory cannot replace something else.
pub open spec fn directory_over_file(d: Seq<u8>) -> Seq<char> {
    "impossible d'écraser "@ + quoted(d) + " par un répertoire"@
}

/// A directory cannot replace something else.
pub fn say_directory_over_file(d: &RawPath) -> (r: String)
    ensures
        r@ == directory_over_file(d@),
{
    let mut s: String = "impossible d'écraser ".to_owned();
    append_quoted(&mut s, d);
    s.append(" par un répertoire");
    s
}

/// The source `p` did not get to `d`.
pub open spec fn not_copied(p: Seq<u8>, d: Seq<u8>, cause: Seq<char>) -> Seq<char> {
    shown(p) + " -> "@ + shown(d) + " : "@ + cause
}

/// The source `p` did not get to `d`.
pub fn say_not_copied(p: &RawPath, d: &RawPath, cause: &str) -> (r: String)
    ensures
        r@ == not_copied(p@, d@, cause@),
{
    let mut s: String = display(p);
    s.append(" -> ");
    let d_text: String = display(d);
    s.append(d_text.as_str());
    s.append(" : ");
    s.append(cause);
    s
}

/// Attributes could not be kept.
pub open spec fn attributes_lost(cause: Seq<char>) -> Seq<char> {
    "impossible de préserver les attributs : "@ + cause
}

/// Attributes could not be kept.
pub fn say_attributes_lost(cause: &str) -> (r: String)
    ensures
        r@ == attributes_lost(cause@),
{
    let mut s: String = "impossible de préserver les attributs : ".to_owned();
    s.append(cause);
    s
}

/// The attributes of a directory could not be kept.
pub open spec fn directory_attributes_lost(d: Seq<u8>, cause: Seq<char>) -> Seq<char> {
    "impossible de préserver les attributs de "@ + quoted(d) + " : "@ + cause
}

/// The attributes of a directory could not be kept.
pub fn say_directory_attributes_lost(d: &RawPath, cause: &str) -> (r: String)
    ensures
        r@ == directory_attributes_lost(d@, cause@),
{
    let mut s: String = "impossible de préserver les attributs de ".to_owned();
    append_quoted(&mut s, d);
    s.append(" : ");
    s.append(cause);
    s
}

/// A socket or a device is left aside.
pub open spec fn special_left_aside(p: Seq<u8>) -> Seq<char> {
    "ignoré (fichier spécial) : "@ + shown(p)
}

/// A socket or a device is left aside.
pub fn say_special_left_aside(p: &RawPath) -> (r: String)
    ensures
        r@ == special_left_aside(p@),
{
    let mut s: String = "ignoré (fichier spécial) : ".to_owned();
    let p_text: String = display(p);
    s.append(p_text.as_str());
    s
}

/// A file was copied; `detail` says more.
pub open spec fn copied_note(p: Seq<u8>, d: Seq<u8>, detail: Seq<char>) -> Seq<char> {
    shown(p) + " -> "@ + shown(d) + " ("@ + detail + ")"@
}

/// A file was copied; `detail` says more.
pub fn say_copied_note(p: &RawPath, d: &RawPath, detail: &str) -> (r: String)
    ensures
        r@ == copied_note(p@, d@, detail@),
{
    let mut s: String = display(p);
    s.append(" -> ");
    let d_text: String = display(d);
    s.append(d_text.as_str());
    s.append(" (");
    s.append(detail);
    s.append(")");
    s
}

/// A file became a hard link to an earlier copy.
pub open spec fn linked_note(p: Seq<u8>, d: Seq<u8>) -> Seq<char> {
    shown(p) + " == "@ + shown(d) + " (lien dur)"@
}

/// A file became a hard link to an earlier copy.
pub fn say_linked_note(p: &RawPath, d: &RawPath) -> (r: String)
    ensures
        r@ == linked_note(p@, d@),
{
    let mut s: String = display(p);
    s.append(" == ");
    let d_text: String = display(d);
    s.append(d_text.as_str());
    s.append(" (lien dur)");
    s
}

/// The question before an existing file is overwritten.
pub open spec fn overwrite_question(d: Seq<u8>) -> Seq<char> {
    "wcp : écraser "@ + quoted(d) + " ? "@
}

/// The question before an existing file is overwritten.
pub fn say_overwrite_question(d: &RawPath) -> (r: String)
    ensures
        r@ == overwrite_question(d@),
{
    let mut s: String = "wcp : écraser ".to_owned();
    append_quoted(&mut s, d);
    s.append(" ? ");
    s
}

// ---------------------------------------------------------------------------
// Moving
// ---------------------------------------------------------------------------

/// The destination could not be saved.
pub open spec fn not_saved(d: Seq<u8>, cause: Seq<char>) -> Seq<char> {
    "sauvegarde de "@ + quoted(d) + " : "@ + cause
}

/// The destination could not be saved.
pub fn say_not_saved(d: &RawPath, cause: &str) -> (r: String)
    ensures
        r@ == not_saved(d@, cause@),
{
    let mut s: String = "sauvegarde de ".to_owned();
    append_quoted(&mut s, d);
    s.append(" : ");
    s.append(cause);
    s
}

/// The source stays, for not all of it was copied.
pub open spec fn source_kept(p: Seq<u8>) -> Seq<char> {
    quoted(p) + " conservée suite aux erreurs de copie"@
}

/// The source stays, for not all of it was copied.
pub fn say_source_kept(p: &RawPath) -> (r: String)
    ensures
        r@ == source_kept(p@),
{
    let mut s: String = quote(p);
    s.append(" conservée suite aux erreurs de copie");
    s
}

/// The source stays, for something in it was left out of the copy.
pub open spec fn source_incomplete(p: Seq<u8>) -> Seq<char> {
    quoted(p) + " conservée : la copie n'est pas complète"@
}

/// The source stays, for something in it was left out of the copy.
pub fn say_source_incomplete(p: &RawPath) -> (r: String)
    ensures
        r@ == source_incomplete(p@),
{
    let mut s: String = quote(p);
    s.append(" conservée : la copie n'est pas complète");
    s
}

/// The source was copied but cannot be removed.
pub open spec fn source_not_removed(p: Seq<u8>, cause: Seq<char>) -> Seq<char> {
    "copie réussie mais impossible de supprimer la source "@ + quoted(p) + " : "@ + cause
}

/// The source was copied but cannot be removed.
pub fn say_source_not_removed(p: &RawPath, cause: &str) -> (r: String)
    ensures
        r@ == source_not_removed(p@, cause@),
{
    let mut s: String = "copie réussie mais impossible de supprimer la source ".to_owned();
    append_quoted(&mut s, p);
    s.append(" : ");
    s.append(cause);
    s
}

} // verus!
