//! The characters of the fixed texts of the grammar, for proofs that read
//! them.
use vstd::prelude::*;

verus! {

pub proof fn lit_eq()
    ensures
        " = "@ == seq![' ', '=', ' '],
{
    reveal_strlit(" = ");
    assert(" = "@ =~= seq![' ', '=', ' ']);
}

pub proof fn lit_nl()
    ensures
        "\n"@ == seq!['\n'],
{
    reveal_strlit("\n");
    assert("\n"@ =~= seq!['\n']);
}

pub proof fn lit_sp()
    ensures
        " "@ == seq![' '],
{
    reveal_strlit(" ");
    assert(" "@ =~= seq![' ']);
}

pub proof fn lit_sp2()
    ensures
        "  "@ == seq![' ', ' '],
{
    reveal_strlit("  ");
    assert("  "@ =~= seq![' ', ' ']);
}

pub proof fn lit_ts()
    ensures
        "TS"@ == seq!['T', 'S'],
{
    reveal_strlit("TS");
    assert("TS"@ =~= seq!['T', 'S']);
}

pub proof fn lit_eq_b()
    ensures
        " = B "@ == seq![' ', '=', ' ', 'B', ' '],
{
    reveal_strlit(" = B ");
    assert(" = B "@ =~= seq![' ', '=', ' ', 'B', ' ']);
}

pub proof fn lit_eq_ts()
    ensures
        " = TS "@ == seq![' ', '=', ' ', 'T', 'S', ' '],
{
    reveal_strlit(" = TS ");
    assert(" = TS "@ =~= seq![' ', '=', ' ', 'T', 'S', ' ']);
}

pub proof fn lit_eq_a()
    ensures
        " = A "@ == seq![' ', '=', ' ', 'A', ' '],
{
    reveal_strlit(" = A ");
    assert(" = A "@ =~= seq![' ', '=', ' ', 'A', ' ']);
}

pub proof fn lit_eq_e_q()
    ensures
        " = E \""@ == seq![' ', '=', ' ', 'E', ' ', '"'],
{
    reveal_strlit(" = E \"");
    assert(" = E \""@ =~= seq![' ', '=', ' ', 'E', ' ', '"']);
}

pub proof fn lit_q_nl()
    ensures
        "\"\n"@ == seq!['"', '\n'],
{
    reveal_strlit("\"\n");
    assert("\"\n"@ =~= seq!['"', '\n']);
}

pub proof fn lit_ph_start()
    ensures
        "phrase_start"@ == seq!['p', 'h', 'r', 'a', 's', 'e', '_', 's', 't', 'a', 'r', 't'],
{
    reveal_strlit("phrase_start");
    assert("phrase_start"@ =~= seq!['p', 'h', 'r', 'a', 's', 'e', '_', 's', 't', 'a', 'r', 't']);
}

pub proof fn lit_ph_end()
    ensures
        "phrase_end"@ == seq!['p', 'h', 'r', 'a', 's', 'e', '_', 'e', 'n', 'd'],
{
    reveal_strlit("phrase_end");
    assert("phrase_end"@ =~= seq!['p', 'h', 'r', 'a', 's', 'e', '_', 'e', 'n', 'd']);
}

pub proof fn lit_section()
    ensures
        "section "@ == seq!['s', 'e', 'c', 't', 'i', 'o', 'n', ' '],
{
    reveal_strlit("section ");
    assert("section "@ =~= seq!['s', 'e', 'c', 't', 'i', 'o', 'n', ' ']);
}

pub proof fn lit_lyric()
    ensures
        "lyric "@ == seq!['l', 'y', 'r', 'i', 'c', ' '],
{
    reveal_strlit("lyric ");
    assert("lyric "@ =~= seq!['l', 'y', 'r', 'i', 'c', ' ']);
}

pub proof fn lit_eq_n()
    ensures
        " = N "@ == seq![' ', '=', ' ', 'N', ' '],
{
    reveal_strlit(" = N ");
    assert(" = N "@ =~= seq![' ', '=', ' ', 'N', ' ']);
}

pub proof fn lit_eq_s()
    ensures
        " = S "@ == seq![' ', '=', ' ', 'S', ' '],
{
    reveal_strlit(" = S ");
    assert(" = S "@ =~= seq![' ', '=', ' ', 'S', ' ']);
}

pub proof fn lit_eq_e()
    ensures
        " = E "@ == seq![' ', '=', ' ', 'E', ' '],
{
    reveal_strlit(" = E ");
    assert(" = E "@ =~= seq![' ', '=', ' ', 'E', ' ']);
}

pub proof fn lit_n_()
    ensures
        "N "@ == seq!['N', ' '],
{
    reveal_strlit("N ");
    assert("N "@ =~= seq!['N', ' ']);
}

pub proof fn lit_e_()
    ensures
        "E "@ == seq!['E', ' '],
{
    reveal_strlit("E ");
    assert("E "@ =~= seq!['E', ' ']);
}

pub proof fn lit_s_()
    ensures
        "S "@ == seq!['S', ' '],
{
    reveal_strlit("S ");
    assert("S "@ =~= seq!['S', ' ']);
}

pub proof fn lit_song_head()
    ensures
        "[Song]\n{\n"@ == seq!['[', 'S', 'o', 'n', 'g', ']', '\n', '{', '\n'],
{
    reveal_strlit("[Song]\n{\n");
    assert("[Song]\n{\n"@ =~= seq!['[', 'S', 'o', 'n', 'g', ']', '\n', '{', '\n']);
}

pub proof fn lit_res_line()
    ensures
        "  Resolution = "@ == seq![' ', ' ', 'R', 'e', 's', 'o', 'l', 'u', 't', 'i', 'o', 'n', ' ', '=', ' '],
{
    reveal_strlit("  Resolution = ");
    assert("  Resolution = "@ =~= seq![' ', ' ', 'R', 'e', 's', 'o', 'l', 'u', 't', 'i', 'o', 'n', ' ', '=', ' ']);
}

pub proof fn lit_res()
    ensures
        "Resolution"@ == seq!['R', 'e', 's', 'o', 'l', 'u', 't', 'i', 'o', 'n'],
{
    reveal_strlit("Resolution");
    assert("Resolution"@ =~= seq!['R', 'e', 's', 'o', 'l', 'u', 't', 'i', 'o', 'n']);
}

pub proof fn lit_close()
    ensures
        "}\n"@ == seq!['}', '\n'],
{
    reveal_strlit("}\n");
    assert("}\n"@ =~= seq!['}', '\n']);
}

pub proof fn lit_song()
    ensures
        "[Song]"@ == seq!['[', 'S', 'o', 'n', 'g', ']'],
{
    reveal_strlit("[Song]");
    assert("[Song]"@ =~= seq!['[', 'S', 'o', 'n', 'g', ']']);
}

pub proof fn lit_sync_head()
    ensures
        "[SyncTrack]\n{\n"@ == seq!['[', 'S', 'y', 'n', 'c', 'T', 'r', 'a', 'c', 'k', ']', '\n', '{', '\n'],
{
    reveal_strlit("[SyncTrack]\n{\n");
    assert("[SyncTrack]\n{\n"@ =~= seq!['[', 'S', 'y', 'n', 'c', 'T', 'r', 'a', 'c', 'k', ']', '\n', '{', '\n']);
}

pub proof fn lit_sync()
    ensures
        "[SyncTrack]"@ == seq!['[', 'S', 'y', 'n', 'c', 'T', 'r', 'a', 'c', 'k', ']'],
{
    reveal_strlit("[SyncTrack]");
    assert("[SyncTrack]"@ =~= seq!['[', 'S', 'y', 'n', 'c', 'T', 'r', 'a', 'c', 'k', ']']);
}

pub proof fn lit_events_head()
    ensures
        "[Events]\n{\n"@ == seq!['[', 'E', 'v', 'e', 'n', 't', 's', ']', '\n', '{', '\n'],
{
    reveal_strlit("[Events]\n{\n");
    assert("[Events]\n{\n"@ =~= seq!['[', 'E', 'v', 'e', 'n', 't', 's', ']', '\n', '{', '\n']);
}

pub proof fn lit_events()
    ensures
        "[Events]"@ == seq!['[', 'E', 'v', 'e', 'n', 't', 's', ']'],
{
    reveal_strlit("[Events]");
    assert("[Events]"@ =~= seq!['[', 'E', 'v', 'e', 'n', 't', 's', ']']);
}

pub proof fn lit_open()
    ensures
        "["@ == seq!['['],
{
    reveal_strlit("[");
    assert("["@ =~= seq!['[']);
}

pub proof fn lit_track_head()
    ensures
        "]\n{\n"@ == seq![']', '\n', '{', '\n'],
{
    reveal_strlit("]\n{\n");
    assert("]\n{\n"@ =~= seq![']', '\n', '{', '\n']);
}

} // verus!
